//! Seeing a part of a state as a state of its own.

use core::marker::PhantomData;
use vstd::prelude::*;

verus! {

/// A way to see the part of an outer state that an inner graph works on.
pub trait StateLens<Outer, Inner> {
    /// The inner state within an outer one.
    open spec fn part(&self, outer: Outer) -> Inner {
        arbitrary()
    }

    /// The outer state with another inner one in it.
    open spec fn put(&self, outer: Outer, inner: Inner) -> Outer {
        arbitrary()
    }

    /// The inner state, to work on in place.
    fn get<'a>(&self, outer: &'a mut Outer) -> (inner: &'a mut Inner)
        ensures
            *inner == self.part(*old(outer)),
            *final(outer) == self.put(*old(outer), *final(inner)),
    ;
}

/// The lens that shows the whole state.
pub struct IdentityLens<S> {
    _phantom: PhantomData<S>,
}

impl<S> IdentityLens<S> {
    /// The lens.
    pub fn new() -> (lens: Self)
        ensures
            forall|outer: S| #[trigger] lens.part(outer) == outer,
            forall|outer: S, inner: S| #[trigger] lens.put(outer, inner) == inner,
    {
        IdentityLens { _phantom: PhantomData }
    }
}

impl<S> Default for IdentityLens<S> {
    fn default() -> (lens: Self)
        ensures
            forall|outer: S| #[trigger] lens.part(outer) == outer,
            forall|outer: S, inner: S| #[trigger] lens.put(outer, inner) == inner,
    {
        IdentityLens::new()
    }
}

impl<S> StateLens<S, S> for IdentityLens<S> {
    open spec fn part(&self, outer: S) -> S {
        outer
    }

    open spec fn put(&self, outer: S, inner: S) -> S {
        inner
    }

    fn get<'a>(&self, outer: &'a mut S) -> (inner: &'a mut S) {
        outer
    }
}

} // verus!
