//! Values computed on first use.
//!
//! A lazy value starts out holding the function that computes it; the first
//! request runs the function once and keeps its result, and later requests
//! hand out what was kept.  Forcing takes `&mut self`: the value and its
//! storage have a single owner, and `force` hands out a reference to the
//! value, computing it first if need be.
use vstd::prelude::*;

verus! {

/// The state of a lazy value: the function not yet run, or its result
/// (`None` once the result has been moved out).
#[verifier::reject_recursive_types(T)]
#[verifier::reject_recursive_types(F)]
pub enum LazyStorage<T, F> where F: FnOnce() -> T {
    Func(F),
    Stored(Option<T>),
}

impl<T, F> LazyStorage<T, F> where F: FnOnce() -> T {
    /// The stored result, if there is one.
    pub fn as_ref(&self) -> (r: Option<&T>)
        ensures
            r == (match self {
                LazyStorage::Stored(Some(t)) => Some(t),
                _ => None::<&T>,
            }),
    {
        match self {
            LazyStorage::Stored(Some(t)) => Some(t),
            _ => None,
        }
    }

    /// Moves the stored result out, leaving `Stored(None)`; a function not
    /// yet run stays as it is.
    pub fn consume(&mut self) -> (r: Option<T>)
        ensures
            match *old(self) {
                LazyStorage::Stored(o) => r == o && *final(self) == LazyStorage::<T, F>::Stored(None),
                LazyStorage::Func(_) => r.is_none() && *final(self) == *old(self),
            },
    {
        match self {
            LazyStorage::Stored(opt) => opt.take(),
            _ => None,
        }
    }

    /// Whether `t` is a value that this storage can yield: a result the
    /// function may return, or the result already stored.
    pub open spec fn yields(self, t: T) -> bool {
        match self {
            LazyStorage::Func(f) => call_ensures(f, (), t),
            LazyStorage::Stored(Some(v)) => v == t,
            LazyStorage::Stored(None) => false,
        }
    }

    /// The function may be run, or a result is stored.
    pub open spec fn ready(self) -> bool {
        match self {
            LazyStorage::Func(f) => call_requires(f, ()),
            LazyStorage::Stored(o) => o.is_some(),
        }
    }

    /// Runs the function if it has not run yet, and stores its result.
    fn force(&mut self)
        requires
            old(self).ready(),
        ensures
            *final(self) is Stored,
            final(self).ready(),
            forall|t: T| #[trigger] final(self).yields(t) ==> old(self).yields(t),
            *old(self) is Stored ==> *final(self) == *old(self),
    {
        if let LazyStorage::Stored(_) = self {
            return;
        }
        let mut taken = LazyStorage::Stored(None);
        std::mem::swap(self, &mut taken);
        match taken {
            LazyStorage::Func(f) => {
                let t = f();
                *self = LazyStorage::Stored(Some(t));
            },
            LazyStorage::Stored(o) => {
                *self = LazyStorage::Stored(o);
            },
        }
    }
}

/// A value computed on first use, meant to be handed between threads.
#[verifier::reject_recursive_types(T)]
#[verifier::reject_recursive_types(F)]
pub struct AsyncLazy<T, F> where F: FnOnce() -> T {
    store: LazyStorage<T, F>,
}

impl<T, F> AsyncLazy<T, F> where F: FnOnce() -> T {
    /// The state of the value: the function not yet run, or its result.
    pub closed spec fn storage(self) -> LazyStorage<T, F> {
        self.store
    }

    /// A lazy value that `f` will compute.
    pub fn new(f: F) -> (r: AsyncLazy<T, F>)
        ensures
            r.storage() == LazyStorage::<T, F>::Func(f),
    {
        AsyncLazy { store: LazyStorage::Func(f) }
    }

    /// Computes the value if need be and hands it out.
    pub fn consume(self) -> (r: Option<T>)
        requires
            self.storage().ready(),
        ensures
            r matches Some(t) && self.storage().yields(t),
    {
        let mut s = self;
        s.consume_fn();
        assert(s.store.yields(s.store->Stored_0.unwrap()));
        let AsyncLazy { store } = s;
        let mut store = store;
        store.consume()
    }

    /// Runs the function if it has not run yet; the result is kept.
    pub fn consume_fn(&mut self)
        requires
            old(self).storage().ready(),
        ensures
            final(self).storage().ready(),
            final(self).storage() is Stored,
            final(self).storage() matches LazyStorage::Stored(Some(t)) && old(self).storage().yields(t),
            old(self).storage() is Stored ==> *final(self) == *old(self),
    {
        self.store.force();
        proof {
            assert(self.store.yields(self.store->Stored_0.unwrap()));
        }
    }

    /// The value, computed first if need be.
    pub fn force(&mut self) -> (r: &T)
        requires
            old(self).storage().ready(),
        ensures
            final(self).storage() == LazyStorage::<T, F>::Stored(Some(*r)),
            old(self).storage().yields(*r),
            old(self).storage() is Stored ==> *final(self) == *old(self),
    {
        self.consume_fn();
        self.store.as_ref().unwrap()
    }

    /// The computed value, once it has been forced.
    pub fn get(&self) -> (r: Option<&T>)
        ensures
            r == (match self.storage() {
                LazyStorage::Stored(Some(t)) => Some(&t),
                _ => None::<&T>,
            }),
    {
        self.store.as_ref()
    }
}

/// A value computed on first use.
#[verifier::reject_recursive_types(T)]
#[verifier::reject_recursive_types(F)]
pub struct Lazy<T, F> where F: FnOnce() -> T {
    store: LazyStorage<T, F>,
}

impl<T, F> Lazy<T, F> where F: FnOnce() -> T {
    /// The state of the value: the function not yet run, or its result.
    pub closed spec fn storage(self) -> LazyStorage<T, F> {
        self.store
    }

    /// A lazy value that `f` will compute.
    pub fn new(f: F) -> (r: Lazy<T, F>)
        ensures
            r.storage() == LazyStorage::<T, F>::Func(f),
    {
        Lazy { store: LazyStorage::Func(f) }
    }

    /// Computes the value if need be and hands it out.
    pub fn consume(self) -> (r: T)
        requires
            self.storage().ready(),
        ensures
            self.storage().yields(r),
    {
        let mut s = self;
        s.consume_fn();
        assert(s.store.yields(s.store->Stored_0.unwrap()));
        let Lazy { store } = s;
        let mut store = store;
        store.consume().unwrap()
    }

    /// Runs the function if it has not run yet; the result is kept.
    pub fn consume_fn(&mut self)
        requires
            old(self).storage().ready(),
        ensures
            final(self).storage().ready(),
            final(self).storage() is Stored,
            final(self).storage() matches LazyStorage::Stored(Some(t)) && old(self).storage().yields(t),
            old(self).storage() is Stored ==> *final(self) == *old(self),
    {
        self.store.force();
        proof {
            assert(self.store.yields(self.store->Stored_0.unwrap()));
        }
    }

    /// The value, computed first if need be.
    pub fn force(&mut self) -> (r: &T)
        requires
            old(self).storage().ready(),
        ensures
            final(self).storage() == LazyStorage::<T, F>::Stored(Some(*r)),
            old(self).storage().yields(*r),
            old(self).storage() is Stored ==> *final(self) == *old(self),
    {
        self.consume_fn();
        self.store.as_ref().unwrap()
    }

    /// The computed value, once it has been forced.
    pub fn get(&self) -> (r: Option<&T>)
        ensures
            r == (match self.storage() {
                LazyStorage::Stored(Some(t)) => Some(&t),
                _ => None::<&T>,
            }),
    {
        self.store.as_ref()
    }
}

} // verus!
