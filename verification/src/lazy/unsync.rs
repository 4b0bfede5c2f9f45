//! Single-owner write-once cell and lazy value.
use vstd::prelude::*;

verus! {

/// A cell which can be written to only once.
#[derive(Clone)]
pub struct OnceCell<T> {
    inner: Option<T>,
}

impl<T> View for OnceCell<T> {
    type V = Option<T>;

    closed spec fn view(&self) -> Option<T> {
        self.inner
    }
}

impl<T> OnceCell<T> {
    /// Creates a new empty cell.
    pub fn new() -> (c: OnceCell<T>)
        ensures
            c@ is None,
    {
        OnceCell { inner: None }
    }

    /// Gets a reference to the underlying value, or `None` if the cell is
    /// empty.
    pub fn get(&self) -> (r: Option<&T>)
        ensures
            match r {
                Some(v) => self@ == Some(*v),
                None => self@ is None,
            },
    {
        self.inner.as_ref()
    }

    /// Sets the contents of this cell to `value`; returns `Ok(())` if the
    /// cell was empty and gives `value` back as `Err` if it was full.
    pub fn set(&mut self, value: T) -> (r: Result<(), T>)
        ensures
            match old(self)@ {
                None => final(self)@ == Some(value) && r == Ok::<(), T>(()),
                Some(_) => final(self)@ == old(self)@ && r == Err::<(), T>(value),
            },
    {
        if self.inner.is_none() {
            self.inner = Some(value);
            Ok(())
        } else {
            Err(value)
        }
    }

    /// Gets the contents of the cell, initializing it with `f` if the cell
    /// was empty.
    pub fn get_or_init<F: FnOnce() -> T>(&mut self, f: F) -> (r: &T)
        requires
            old(self)@ is None ==> f.requires(()),
        ensures
            match old(self)@ {
                Some(v) => final(self)@ == old(self)@ && *r == v,
                None => final(self)@ == Some(*r) && f.ensures((), *r),
            },
    {
        if self.inner.is_none() {
            let v = f();
            self.inner = Some(v);
        }
        match self.inner.as_ref() {
            Some(v) => v,
            None => vstd::pervasive::unreached(),
        }
    }

    /// Gets the contents of the cell, initializing it with `f` if the cell
    /// was empty; a failing initializer leaves the cell empty.
    pub fn get_or_try_init<E, F: FnOnce() -> Result<T, E>>(&mut self, f: F) -> (r: Result<&T, E>)
        requires
            old(self)@ is None ==> f.requires(()),
        ensures
            match old(self)@ {
                Some(v) => final(self)@ == old(self)@ && (r matches Ok(x) && *x == v),
                None => match r {
                    Ok(x) => final(self)@ == Some(*x) && f.ensures((), Ok(*x)),
                    Err(e) => final(self)@ is None && f.ensures((), Err(e)),
                },
            },
    {
        if self.inner.is_none() {
            match f() {
                Ok(v) => {
                    self.inner = Some(v);
                },
                Err(e) => {
                    return Err(e);
                },
            }
        }
        match self.inner.as_ref() {
            Some(v) => Ok(v),
            None => vstd::pervasive::unreached(),
        }
    }

    /// Takes the value out of this cell, moving it back to the
    /// uninitialized state.
    pub fn take(&mut self) -> (r: Option<T>)
        ensures
            final(self)@ is None,
            r == old(self)@,
    {
        self.inner.take()
    }

    /// Consumes the cell, returning the wrapped value if any.
    pub fn into_inner(self) -> (r: Option<T>)
        ensures
            r == self@,
    {
        self.inner
    }
}

impl<T> Default for OnceCell<T> {
    fn default() -> (c: OnceCell<T>)
        ensures
            c@ is None,
    {
        OnceCell::new()
    }
}

/// A value initialized on first access: an empty cell plus the initializer
/// that will fill it.
pub struct Lazy<T, F = fn() -> T> {
    cell: OnceCell<T>,
    init: Option<F>,
}

impl<T, F> Lazy<T, F> {
    /// The cached value, if the cell has been forced.
    pub closed spec fn spec_value(&self) -> Option<T> {
        self.cell@
    }

    /// The initializer, while it has not run yet.
    pub closed spec fn spec_init(&self) -> Option<F> {
        self.init
    }

    /// Either the value or the initializer is still present; forcing a
    /// well-formed lazy value never panics.
    pub open spec fn wf(&self) -> bool {
        self.spec_value() is Some || self.spec_init() is Some
    }

    /// Creates a new lazy value with the given initializing function.
    pub fn new(init: F) -> (l: Lazy<T, F>)
        ensures
            l.spec_value() is None,
            l.spec_init() == Some(init),
            l.wf(),
    {
        Lazy { cell: OnceCell::new(), init: Some(init) }
    }

    /// Consumes this lazy value, returning the stored value if it was
    /// forced, and the initializer otherwise.
    pub fn into_value(this: Lazy<T, F>) -> (r: Result<T, F>)
        requires
            this.wf(),
        ensures
            match this.spec_value() {
                Some(v) => r == Ok::<T, F>(v),
                None => this.spec_init() matches Some(f) && r == Err::<T, F>(f),
            },
    {
        match this.cell.into_inner() {
            Some(v) => Ok(v),
            None => match this.init {
                Some(f) => Err(f),
                None => vstd::pervasive::unreached(),
            },
        }
    }
}

impl<T, F: FnOnce() -> T> Lazy<T, F> {
    /// Forces the evaluation of this lazy value and returns a reference to
    /// the result.
    pub fn force(this: &mut Lazy<T, F>) -> (r: &T)
        requires
            old(this).wf(),
            old(this).spec_value() is None ==> old(this).spec_init().unwrap().requires(()),
        ensures
            final(this).wf(),
            final(this).spec_value() == Some(*r),
            match old(this).spec_value() {
                Some(v) => *r == v && final(this).spec_init() == old(this).spec_init(),
                None => final(this).spec_init() is None && old(this).spec_init().unwrap().ensures(
                    (),
                    *r,
                ),
            },
    {
        if this.cell.inner.is_none() {
            match this.init.take() {
                Some(f) => {
                    let v = f();
                    this.cell.inner = Some(v);
                },
                None => {
                    vstd::pervasive::unreached::<()>();
                },
            }
        }
        match this.cell.inner.as_ref() {
            Some(v) => v,
            None => vstd::pervasive::unreached(),
        }
    }
}

} // verus!
