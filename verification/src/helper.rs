//! A mutable lazy value: either an initializer waiting to run, or the value
//! it produced.  The initializer is any callable; the contracts carry its
//! own pre- and postcondition through `call_requires` and `call_ensures`.

use vstd::prelude::*;

verus! {

/// A mutable lazy value with either an initializer or a value.
pub enum LazyMut<T, F> {
    /// An initializer that will be run to obtain the first value.
    Init(F),
    /// The value from the initializer.
    Value(T),
}

impl<T, F: Fn() -> T> LazyMut<T, F> {
    /// A held initializer, if any, is ready to run.
    pub open spec fn initializer_ok(self) -> bool {
        self matches LazyMut::Init(f) ==> call_requires(f, ())
    }

    /// Returns the wrapped value, initializing if needed.
    pub fn unwrap(self) -> (r: T)
        requires
            self.initializer_ok(),
        ensures
            self matches LazyMut::Value(v) ==> r == v,
            self matches LazyMut::Init(f) ==> call_ensures(f, (), r),
    {
        match self {
            LazyMut::Init(init) => init(),
            LazyMut::Value(val) => val,
        }
    }

    /// Initializes the wrapped value if it is uninitialized.
    pub fn init(&mut self)
        requires
            old(self).initializer_ok(),
        ensures
            *final(self) is Value,
            *old(self) matches LazyMut::Value(v) ==> *final(self) == LazyMut::<T, F>::Value(v),
            *old(self) matches LazyMut::Init(f) ==> (*final(self) matches LazyMut::Value(v)
                && call_ensures(f, (), v)),
    {
        let fresh: Option<T> = match &*self {
            LazyMut::Init(f) => Some((*f)()),
            LazyMut::Value(_) => None,
        };
        match fresh {
            Some(v) => {
                *self = LazyMut::Value(v);
            },
            None => {},
        }
    }

    /// Initializes the wrapped value; it must not have been initialized yet.
    pub fn init_once(&mut self)
        requires
            *old(self) is Init,
            old(self).initializer_ok(),
        ensures
            *old(self) matches LazyMut::Init(f) ==> (*final(self) matches LazyMut::Value(v)
                && call_ensures(f, (), v)),
    {
        self.init();
    }

    /// Tries to get a reference to the value; `None` if uninitialized.
    ///
    /// Uses associated function syntax (`LazyMut::get(&v)`).
    pub fn get(this: &LazyMut<T, F>) -> (r: Option<&T>)
        ensures
            (r is Some) <==> (*this is Value),
            *this matches LazyMut::Value(v) ==> (r matches Some(x) && *x == v),
    {
        match this {
            LazyMut::Init(_) => None,
            LazyMut::Value(val) => Some(val),
        }
    }

    /// Tries to get a mutable reference to the value; `None` if
    /// uninitialized.
    ///
    /// Uses associated function syntax (`LazyMut::get_mut(&mut v)`).
    pub fn get_mut(this: &mut LazyMut<T, F>) -> (r: Option<&mut T>)
        ensures
            (r is Some) <==> (*old(this) is Value),
            *old(this) is Init ==> *final(this) == *old(this),
    {
        match this {
            LazyMut::Init(_) => None,
            LazyMut::Value(val) => Some(val),
        }
    }

    /// Returns `true` if the wrapped value has been initialized.
    pub fn is_initialized(&self) -> (r: bool)
        ensures
            r <==> (*self is Value),
    {
        match self {
            LazyMut::Init(_) => false,
            LazyMut::Value(_) => true,
        }
    }
}

} // verus!
