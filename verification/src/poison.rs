//! Poison flag for lock wrappers: records that a panic happened while the
//! lock was held, so later borrowers receive a poison error.
//!
//! Observing the flag from the panic path needs the thread runtime and lives
//! with the lock shells outside this library; here are the flag itself and
//! the result adaptor that rewraps a poisoned value.
use vstd::prelude::*;

use std::sync::{LockResult, PoisonError};

verus! {

#[verifier::external_type_specification]
#[verifier::external_body]
#[verifier::reject_recursive_types(T)]
pub struct ExPoisonError<T>(PoisonError<T>);

/// Relies on std::sync::PoisonError::new: wraps a guard into a poison error.
/// Nothing further is assumed of the wrapper.
pub assume_specification<T>[ PoisonError::<T>::new ](guard: T) -> PoisonError<T>;

/// Relies on std::sync::PoisonError::into_inner: consumes the error,
/// returning the underlying guard. Nothing further is assumed of the value.
pub assume_specification<T>[ PoisonError::<T>::into_inner ](e: PoisonError<T>) -> T;

/// Whether a panic was recorded while the protected value was held.
pub struct Flag {
    failed: u64,
}

impl Flag {
    /// Whether the flag is raised.
    pub closed spec fn spec_get(&self) -> bool {
        self.failed != 0
    }

    /// A fresh, unpoisoned flag.
    pub fn new() -> (f: Flag)
        ensures
            !f.spec_get(),
    {
        Flag { failed: 0 }
    }

    /// Record that the holder panicked.
    pub fn set(&mut self)
        ensures
            final(self).spec_get(),
    {
        self.failed = 1;
    }

    /// Whether the protected value is poisoned.
    pub fn get(&self) -> (r: bool)
        ensures
            r == self.spec_get(),
    {
        self.failed != 0
    }
}

/// Evidence that a borrow of the protected value is in flight; carries
/// whether the borrowing thread was already panicking when it borrowed.
pub struct Guard {
    pub panicking: bool,
}

/// Map the value inside a lock result, preserving poisoning: an `Ok` value
/// is mapped to `Ok`, a poisoned one stays poisoned with its guard mapped.
pub fn map_result<T, U, F: FnOnce(T) -> U>(result: LockResult<T>, f: F) -> (r: LockResult<U>)
    requires
        forall|t: T| #[trigger] f.requires((t,)),
    ensures
        r is Ok <==> result is Ok,
        (match (result, r) {
            (Ok(t), Ok(u)) => f.ensures((t,), u),
            (Err(_), Err(_)) => true,
            _ => false,
        }),
{
    match result {
        Ok(t) => Ok(f(t)),
        Err(guard) => Err(PoisonError::new(f(guard.into_inner()))),
    }
}

} // verus!
