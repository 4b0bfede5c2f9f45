//! One-shot rendezvous between a single waiting coroutine and one or more
//! wakers, with integrated timeout and cancellation.
//!
//! `ParkImpl` is the state of one suspension site. The fields are the plain
//! values behind the atomics of a running system: the wait-slot holding the
//! suspended coroutine handle, the permit bit (an unpark arrived while nobody
//! was waiting), and the kernel-busy bit (the scheduler is mid-subscribe).
//! Every operation is specified by a spec-level transition function, so the
//! protocol laws (single-slot discipline, permit idempotence, no lost wakeup,
//! exclusive outcome) are proved below as theorems over those transitions.
//!
//! The scheduler interaction itself (yielding the coroutine, pushing it onto
//! a ready queue, registering the timer) is outside work: each operation
//! returns what the caller — a worker loop — must do next.
use vstd::prelude::*;

use crate::timeout_list::TimeoutHandle;
use core::time::Duration;

verus! {

/// Why a park call did not return normally.
#[derive(Debug, Copy, Clone, Eq, PartialEq, Structural)]
pub enum ParkError {
    Canceled,
    Timeout,
}

/// The tag a waker leaves in the coroutine's per-yield error slot before
/// scheduling it: a firing timer writes `TimedOut`, a cancellation writes
/// `Canceled`, a plain unpark writes nothing.
#[derive(Debug, Copy, Clone, Eq, PartialEq, Structural)]
pub enum ResumeError {
    TimedOut,
    Canceled,
}

/// What the prologue of a park decided.
#[derive(Debug, Copy, Clone, Eq, PartialEq, Structural)]
pub enum ParkAttempt {
    /// A pending permit was consumed: park completes with `Ok(())` without
    /// yielding.
    Ready,
    /// The coroutine must yield with this park as its event source; the
    /// worker then calls `subscribe`, and `park_resume` runs on wakeup.
    Suspend,
}

/// A coroutine taken out of the wait-slot, and whether the caller should
/// resume it synchronously (`sync`) or push it onto a ready queue.
#[derive(Debug, Copy, Clone, Eq, PartialEq, Structural)]
pub struct Wakeup {
    pub co: u64,
    pub sync: bool,
}

/// What the worker must do after handing the paused coroutine to `subscribe`.
#[derive(Debug, Copy, Clone, Eq, PartialEq, Structural)]
pub enum SubscribeWake {
    /// The coroutine stays in the wait-slot until a waker takes it.
    Parked,
    /// An unpark raced us and left a permit: resume the coroutine
    /// synchronously instead of paying a queue hop.
    RunNow(u64),
    /// A cancellation raced us: tag the coroutine `Canceled` and schedule it.
    CancelWake(u64),
}

/// Result of `subscribe`: the timeout to turn into a one-shot timer (taken
/// from the park's timeout slot), and the wake decision.
#[derive(Debug, Copy, Clone, Eq, PartialEq)]
pub struct SubscribeResult {
    pub timer_request: Option<Duration>,
    pub wake: SubscribeWake,
}

/// Result of `park_resume`: the timer handle to deregister (its entry may
/// already have fired, in which case deregistering is a no-op), and the
/// outcome handed back to user code.
#[derive(Debug, Copy, Clone, Eq, PartialEq)]
pub struct ParkFinish {
    pub timer_handle: Option<TimeoutHandle>,
    pub result: Result<(), ParkError>,
}

/// Token for the kernel-busy section opened by `delay_drop`; the busy bit is
/// cleared when `subscribe` leaves, whatever path it takes out.
pub struct DropGuard;

/// The park state: one instance per suspension site.
#[derive(Debug, Copy, Clone, Eq, PartialEq)]
pub struct ParkImpl {
    /// The wait-slot: the one coroutine currently suspended on this park.
    pub wait_co: Option<u64>,
    /// Permit bit (bit 0 of the packed state word): an unpark arrived while
    /// nobody was waiting; the next park consumes it and does not block.
    pub permit: bool,
    /// Kernel-busy bit (bit 1): `subscribe` is still running, so the park
    /// must not be reused or destroyed yet.
    pub kernel_busy: bool,
    /// Whether park honors cancellation on the way back to user code; the
    /// surrounding primitive may manage cancellation itself.
    pub check_cancel: bool,
    /// Timeout for the next park; `subscribe` converts it into a timer.
    pub timeout: Option<Duration>,
    /// Handle of the currently installed one-shot timer, if any.
    pub timeout_handle: Option<TimeoutHandle>,
    /// Set when the previous cycle entered `subscribe`: the next park must
    /// first make sure the kernel-busy bit has cleared.
    pub wait_kernel: bool,
}

// ---------------------------------------------------------------------------
// Spec-level transitions. Each executable operation below is specified as
// exactly one of these functions, so the laws at the end of the file are
// theorems about everything the operations can do.
// ---------------------------------------------------------------------------

/// Take the coroutine out of the wait-slot (the shared step of unpark, timer
/// fire, and cancel).
pub open spec fn spec_take(p: ParkImpl) -> (ParkImpl, Option<u64>) {
    (ParkImpl { wait_co: None, ..p }, p.wait_co)
}

/// Unpark: set the permit; if it was already set do nothing more, otherwise
/// take whatever coroutine is waiting.
pub open spec fn spec_unpark(p: ParkImpl) -> (ParkImpl, Option<u64>) {
    if p.permit {
        (p, None)
    } else {
        (ParkImpl { permit: true, wait_co: None, ..p }, p.wait_co)
    }
}

/// Consume a pending permit; the flag says whether the caller still has to
/// park (no permit was pending).
pub open spec fn spec_check_park(p: ParkImpl) -> (ParkImpl, bool) {
    (ParkImpl { permit: false, ..p }, !p.permit)
}

/// The prologue of a park: store the timeout, try the permit fast path, and
/// otherwise settle the kernel flags before yielding.
pub open spec fn spec_park_begin(p: ParkImpl, dur: Option<Duration>) -> (ParkImpl, ParkAttempt) {
    let stored = ParkImpl { timeout: dur, ..p };
    if p.permit {
        (ParkImpl { permit: false, ..stored }, ParkAttempt::Ready)
    } else {
        (
            ParkImpl { wait_kernel: false, kernel_busy: false, ..stored },
            ParkAttempt::Suspend,
        )
    }
}

/// Subscribe: clear the timeout slot (it becomes the timer request), enter
/// and leave the kernel section, publish the coroutine, and re-check the
/// permit and the cancellation flag in that order.
pub open spec fn spec_subscribe(p: ParkImpl, co: u64, canceled: bool) -> (
    ParkImpl,
    SubscribeResult,
) {
    let q = ParkImpl { timeout: None, wait_kernel: true, kernel_busy: false, ..p };
    if p.permit {
        (
            ParkImpl { wait_co: None, ..q },
            SubscribeResult { timer_request: p.timeout, wake: SubscribeWake::RunNow(co) },
        )
    } else if canceled {
        (
            ParkImpl { wait_co: None, ..q },
            SubscribeResult { timer_request: p.timeout, wake: SubscribeWake::CancelWake(co) },
        )
    } else {
        (
            ParkImpl { wait_co: Some(co), ..q },
            SubscribeResult { timer_request: p.timeout, wake: SubscribeWake::Parked },
        )
    }
}

/// The epilogue of a park, run after the coroutine is resumed: consume any
/// straggling permit, uninstall the timer handle, and map the error slot.
pub open spec fn spec_park_resume(p: ParkImpl, para: Option<ResumeError>) -> (
    ParkImpl,
    ParkFinish,
) {
    (
        ParkImpl { permit: false, timeout_handle: None, ..p },
        ParkFinish {
            timer_handle: p.timeout_handle,
            result: match para {
                None => Ok(()),
                Some(ResumeError::TimedOut) => Err(ParkError::Timeout),
                Some(ResumeError::Canceled) => Err(ParkError::Canceled),
            },
        },
    )
}

impl ParkImpl {
    /// A fresh park: empty wait-slot, no permit, cancellation honored.
    pub fn new() -> (p: ParkImpl)
        ensures
            p == (ParkImpl {
                wait_co: None,
                permit: false,
                kernel_busy: false,
                check_cancel: true,
                timeout: None,
                timeout_handle: None,
                wait_kernel: false,
            }),
    {
        ParkImpl {
            wait_co: None,
            permit: false,
            kernel_busy: false,
            check_cancel: true,
            timeout: None,
            timeout_handle: None,
            wait_kernel: false,
        }
    }

    /// Ignore cancellation: if `ignore` is true, the caller has to do the
    /// cancellation check instead.
    pub fn ignore_cancel(&mut self, ignore: bool)
        ensures
            *final(self) == (ParkImpl { check_cancel: !ignore, ..*old(self) }),
    {
        self.check_cancel = !ignore;
    }

    /// Swap the timer-handle slot; the old handle is returned and the caller
    /// becomes its unique owner (the hand-off between subscribe, which
    /// installs, and the park epilogue, which uninstalls).
    pub fn set_timeout_handle(&mut self, handle: Option<TimeoutHandle>) -> (old_handle: Option<
        TimeoutHandle,
    >)
        ensures
            *final(self) == (ParkImpl { timeout_handle: handle, ..*old(self) }),
            old_handle == old(self).timeout_handle,
    {
        let old_handle = self.timeout_handle;
        self.timeout_handle = handle;
        old_handle
    }

    /// Consume a pending permit. Returns true if the caller really needs to
    /// park (no permit was pending); false if the permit was consumed and the
    /// coroutine must not block.
    pub fn check_park(&mut self) -> (need_park: bool)
        ensures
            *final(self) == spec_check_park(*old(self)).0,
            need_park == spec_check_park(*old(self)).1,
    {
        if self.permit {
            self.permit = false;
            false
        } else {
            true
        }
    }

    /// Take the coroutine out of the wait-slot, if any; `b_sync` is passed
    /// through to tell the caller to resume it synchronously rather than
    /// through a ready queue.
    pub fn wake_up(&mut self, b_sync: bool) -> (wake: Option<Wakeup>)
        ensures
            *final(self) == spec_take(*old(self)).0,
            wake == (match spec_take(*old(self)).1 {
                Some(co) => Some(Wakeup { co, sync: b_sync }),
                None => None::<Wakeup>,
            }),
    {
        let co = self.wait_co;
        self.wait_co = None;
        match co {
            Some(co) => Some(Wakeup { co, sync: b_sync }),
            None => None,
        }
    }

    /// Unpark: leave a permit; if none was pending, also take the waiting
    /// coroutine so the caller can schedule (or synchronously run) it.
    /// Idempotent: a second unpark on a pending permit does nothing.
    pub fn unpark_impl(&mut self, b_sync: bool) -> (wake: Option<Wakeup>)
        ensures
            *final(self) == spec_unpark(*old(self)).0,
            wake == (match spec_unpark(*old(self)).1 {
                Some(co) => Some(Wakeup { co, sync: b_sync }),
                None => None::<Wakeup>,
            }),
    {
        if self.permit {
            // the permit is already pending: nothing to do
            None
        } else {
            self.permit = true;
            self.wake_up(b_sync)
        }
    }

    /// Unpark from outside the scheduler: the taken coroutine, if any, goes
    /// onto a ready queue.
    pub fn unpark(&mut self) -> (scheduled: Option<u64>)
        ensures
            *final(self) == spec_unpark(*old(self)).0,
            scheduled == spec_unpark(*old(self)).1,
    {
        match self.unpark_impl(false) {
            Some(w) => Some(w.co),
            None => None,
        }
    }

    /// Uninstall the timer handle; the caller removes the returned handle
    /// from the timer service (if its entry already fired, removal is a
    /// no-op and the handle is just dropped).
    pub fn remove_timeout_handle(&mut self) -> (handle: Option<TimeoutHandle>)
        ensures
            *final(self) == (ParkImpl { timeout_handle: None, ..*old(self) }),
            handle == old(self).timeout_handle,
    {
        self.set_timeout_handle(None)
    }

    /// Enter the kernel section: mark that this cycle reached `subscribe`,
    /// so reuse and destruction wait for the busy bit to clear again.
    pub fn delay_drop(&mut self) -> (g: DropGuard)
        ensures
            *final(self) == (ParkImpl { wait_kernel: true, kernel_busy: true, ..*old(self) }),
    {
        self.wait_kernel = true;
        self.kernel_busy = true;
        DropGuard
    }

    /// The prologue of a park with an optional timeout.
    ///
    /// `Ready` means a permit was consumed: park completes with `Ok(())` and
    /// the coroutine never yields. `Suspend` means the caller must yield
    /// with this park as the event source (`subscribe` follows, and
    /// `park_resume` on wakeup).
    ///
    /// The kernel-busy bit is clear whenever no `subscribe` is running, and
    /// a park cannot start while its own previous subscribe still runs — the
    /// running system spins until the bit clears, which has already happened
    /// here.
    pub fn park_timeout(&mut self, dur: Option<Duration>) -> (r: ParkAttempt)
        requires
            !old(self).kernel_busy,
        ensures
            *final(self) == spec_park_begin(*old(self), dur).0,
            r == spec_park_begin(*old(self), dur).1,
    {
        self.park_with(dur)
    }

    fn park_with(&mut self, dur: Option<Duration>) -> (r: ParkAttempt)
        requires
            !old(self).kernel_busy,
        ensures
            *final(self) == spec_park_begin(*old(self), dur).0,
            r == spec_park_begin(*old(self), dur).1,
    {
        self.timeout = dur;

        // fast-path permit check
        if !self.check_park() {
            return ParkAttempt::Ready;
        }

        // before a new yield, settle the kernel flags from the previous cycle
        if self.wait_kernel {
            self.wait_kernel = false;
        } else {
            self.kernel_busy = false;
        }

        ParkAttempt::Suspend
    }

    /// Register the paused coroutine with this park; runs on the worker just
    /// after the coroutine yielded.
    ///
    /// The returned `timer_request` is the timeout taken out of the park;
    /// the worker registers the one-shot timer and stores its handle with
    /// `set_timeout_handle`. `canceled` is the coroutine's cancellation flag
    /// re-checked at this point.
    pub fn subscribe(&mut self, co: u64, canceled: bool) -> (r: SubscribeResult)
        requires
            old(self).wait_co is None,
        ensures
            *final(self) == spec_subscribe(*old(self), co, canceled).0,
            r == spec_subscribe(*old(self), co, canceled).1,
    {
        let timer_request = self.timeout;
        self.timeout = None;

        let _g = self.delay_drop();

        // publish the coroutine into the wait-slot
        self.wait_co = Some(co);

        // re-check the permit: an unparker may have raced us
        if self.permit {
            let w = self.wake_up(true);
            self.kernel_busy = false;
            match w {
                Some(w) => {
                    return SubscribeResult {
                        timer_request,
                        wake: SubscribeWake::RunNow(w.co),
                    };
                },
                None => {
                    return SubscribeResult { timer_request, wake: SubscribeWake::Parked };
                },
            }
        }

        // re-check the cancellation status
        if canceled {
            let w = self.wake_up(false);
            self.kernel_busy = false;
            match w {
                Some(w) => {
                    return SubscribeResult {
                        timer_request,
                        wake: SubscribeWake::CancelWake(w.co),
                    };
                },
                None => {
                    return SubscribeResult { timer_request, wake: SubscribeWake::Parked };
                },
            }
        }

        self.kernel_busy = false;
        SubscribeResult { timer_request, wake: SubscribeWake::Parked }
    }

    /// Runs just as the coroutine hands control back to its worker, before
    /// `subscribe`: reports whether the caller must run the cooperative
    /// cancellation check on the way down. (The kernel-busy window that
    /// opens here is modeled inside `subscribe`, which both enters and
    /// leaves it.)
    pub fn yield_back(&self) -> (check: bool)
        ensures
            check == self.check_cancel,
    {
        self.check_cancel
    }

    /// The epilogue of a park, run after the coroutine was resumed: consume
    /// any straggling permit, uninstall the timer handle, and translate the
    /// error slot into the park outcome.
    pub fn park_resume(&mut self, para: Option<ResumeError>) -> (r: ParkFinish)
        ensures
            *final(self) == spec_park_resume(*old(self), para).0,
            r == spec_park_resume(*old(self), para).1,
    {
        // clear the trigger state
        self.check_park();
        // remove the timer handle
        let timer_handle = self.remove_timeout_handle();

        let result = match para {
            None => Ok(()),
            Some(ResumeError::TimedOut) => Err(ParkError::Timeout),
            Some(ResumeError::Canceled) => Err(ParkError::Canceled),
        };
        ParkFinish { timer_handle, result }
    }
}

impl Default for ParkImpl {
    fn default() -> (p: ParkImpl)
        ensures
            p == (ParkImpl {
                wait_co: None,
                permit: false,
                kernel_busy: false,
                check_cancel: true,
                timeout: None,
                timeout_handle: None,
                wait_kernel: false,
            }),
    {
        ParkImpl::new()
    }
}

/// Suspend the current coroutine pending an event.
pub trait Park {
    /// When a park may begin; for `ParkImpl`, no subscribe is mid-flight.
    spec fn park_ready(&self) -> bool;

    fn park(&mut self) -> ParkAttempt
        requires
            old(self).park_ready(),
    ;

    /// Park with a timeout. (A trait method cannot share the name of the
    /// inherent `park_timeout` on the implementing type.)
    fn park_for(&mut self, d: Duration) -> ParkAttempt
        requires
            old(self).park_ready(),
    ;
}

/// Wake a previously parked coroutine (or leave a permit if none waits);
/// returns the coroutine to schedule, if one was taken.
pub trait UnPark {
    fn unpark(&mut self) -> Option<u64>;
}

/// Both sides of the rendezvous, plus the combined entry point.
pub trait ParkUnPark: Park + UnPark {
    fn park_option(&mut self, d: Option<Duration>) -> ParkAttempt
        requires
            old(self).park_ready(),
    ;
}

impl Park for ParkImpl {
    open spec fn park_ready(&self) -> bool {
        !self.kernel_busy
    }

    fn park(&mut self) -> (r: ParkAttempt)
        ensures
            *final(self) == spec_park_begin(*old(self), None).0,
            r == spec_park_begin(*old(self), None).1,
    {
        self.park_with(None)
    }

    fn park_for(&mut self, d: Duration) -> (r: ParkAttempt)
        ensures
            *final(self) == spec_park_begin(*old(self), Some(d)).0,
            r == spec_park_begin(*old(self), Some(d)).1,
    {
        self.park_with(Some(d))
    }
}

impl UnPark for ParkImpl {
    fn unpark(&mut self) -> (scheduled: Option<u64>)
        ensures
            *final(self) == spec_unpark(*old(self)).0,
            scheduled == spec_unpark(*old(self)).1,
    {
        ParkImpl::unpark(self)
    }
}

impl ParkUnPark for ParkImpl {
    fn park_option(&mut self, d: Option<Duration>) -> (r: ParkAttempt)
        ensures
            *final(self) == spec_park_begin(*old(self), d).0,
            r == spec_park_begin(*old(self), d).1,
    {
        match d {
            None => self.park_with(None),
            Some(d) => self.park_with(Some(d)),
        }
    }
}

// ---------------------------------------------------------------------------
// Protocol laws.
// ---------------------------------------------------------------------------

/// Outside the subscribe window, a pending permit and a waiting coroutine
/// never coexist: an unpark either consumes the pending park or leaves a
/// permit for the next one — never both.
pub open spec fn permit_slot_disjoint(p: ParkImpl) -> bool {
    p.permit ==> p.wait_co is None
}

/// Every transition keeps `permit_slot_disjoint`: it is an invariant of the
/// protocol (subscribe publishes the coroutine only after seeing no permit,
/// and every waker that sets the permit also empties the slot).
pub proof fn lemma_permit_slot_invariant(
    p: ParkImpl,
    co: u64,
    canceled: bool,
    dur: Option<Duration>,
    para: Option<ResumeError>,
)
    requires
        permit_slot_disjoint(p),
    ensures
        permit_slot_disjoint(spec_take(p).0),
        permit_slot_disjoint(spec_unpark(p).0),
        permit_slot_disjoint(spec_check_park(p).0),
        permit_slot_disjoint(spec_park_begin(p, dur).0),
        p.wait_co is None ==> permit_slot_disjoint(spec_subscribe(p, co, canceled).0),
        permit_slot_disjoint(spec_park_resume(p, para).0),
{
}

/// Single-slot discipline: the wait-slot is taken by at most one of
/// {unpark, timer, cancel} per park/unpark cycle. Whatever taker comes
/// first (a plain take, or an unpark), every later taker finds the slot
/// empty and receives nothing.
pub proof fn lemma_single_slot(p: ParkImpl)
    requires
        permit_slot_disjoint(p),
    ensures
        spec_take(spec_take(p).0).1 is None,
        spec_take(spec_unpark(p).0).1 is None,
        spec_unpark(spec_take(p).0).1 is None,
        spec_unpark(spec_unpark(p).0).1 is None,
{
}

/// Permit idempotence: any number of unparks on an empty park leave exactly
/// one permit, and none of them receives a coroutine; the next park consumes
/// the permit and completes without yielding.
pub proof fn lemma_permit_idempotent(p: ParkImpl, dur: Option<Duration>)
    requires
        p.wait_co is None,
    ensures
        spec_unpark(p).0.permit,
        spec_unpark(p).1 is None,
        spec_unpark(spec_unpark(p).0).0 == spec_unpark(p).0,
        spec_unpark(spec_unpark(p).0).1 is None,
        spec_park_begin(spec_unpark(p).0, dur).1 == ParkAttempt::Ready,
        !spec_park_begin(spec_unpark(p).0, dur).0.permit,
{
}

/// No lost wakeup: once `park` has entered, an unpark in any of the three
/// windows delivers the coroutine —
/// before the prologue (the permit fast path completes the park at once),
/// between the prologue and `subscribe` (the re-check resumes it
/// synchronously), or after `subscribe` has parked it (the unpark takes it
/// out of the wait-slot). The coroutine is never left parked with a permit
/// pending.
pub proof fn lemma_no_lost_wakeup(p: ParkImpl, co: u64, dur: Option<Duration>, canceled: bool)
    requires
        p.wait_co is None,
    ensures
        spec_park_begin(spec_unpark(p).0, dur).1 == ParkAttempt::Ready,
        !p.permit ==> ({
            let after_begin = spec_park_begin(p, dur).0;
            let after_unpark = spec_unpark(after_begin).0;
            spec_subscribe(after_unpark, co, canceled).1.wake == SubscribeWake::RunNow(co)
        }),
        !p.permit && !canceled ==> ({
            let after_begin = spec_park_begin(p, dur).0;
            let parked = spec_subscribe(after_begin, co, false).0;
            spec_unpark(parked).1 == Some(co)
        }),
        forall|q: ParkImpl, c: u64, cc: bool|
            (#[trigger] spec_subscribe(q, c, cc).0).wait_co is Some ==> !spec_subscribe(
                q,
                c,
                cc,
            ).0.permit,
{
}

/// Exclusive outcome: a completed park reports exactly one of Ok, Timeout,
/// or Canceled, fixed by the tag the winning waker left in the error slot.
pub proof fn lemma_exclusive_outcome(p: ParkImpl, para: Option<ResumeError>)
    ensures
        ({
            let r = spec_park_resume(p, para).1.result;
            let is_ok = r == Ok::<(), ParkError>(());
            let is_timeout = r == Err::<(), ParkError>(ParkError::Timeout);
            let is_canceled = r == Err::<(), ParkError>(ParkError::Canceled);
            (is_ok && !is_timeout && !is_canceled) || (!is_ok && is_timeout && !is_canceled) || (
            !is_ok && !is_timeout && is_canceled)
        }),
        spec_park_resume(p, para).1.result == Ok::<(), ParkError>(()) <==> para is None,
        spec_park_resume(p, para).1.result == Err::<(), ParkError>(ParkError::Timeout) <==> para
            == Some(ResumeError::TimedOut),
        spec_park_resume(p, para).1.result == Err::<(), ParkError>(ParkError::Canceled) <==> para
            == Some(ResumeError::Canceled),
{
}

} // verus!
