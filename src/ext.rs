use crate::filter_map_with::FilterMapWith;
use crate::filter_with::FilterWith;
use vstd::prelude::*;

verus! {

/// Attaches the stateful adaptors to every iterator.
pub trait FilterWithExt: Iterator {
    /// Keeps the items for which `predicate`, handed the state and a
    /// reference to the item, decides `true`; it also returns the state that
    /// the next call receives.
    fn filter_with<S, P>(self, state: S, predicate: P) -> (r: FilterWith<Self, P, S>)
        where
            Self: Sized,
            P: FnMut(S, &Self::Item) -> (S, bool),
        ensures
            r.wf(),
            r.source() == self,
            r.pred() == predicate,
            r.current_state() == state,
    {
        FilterWith::new(self, state, predicate)
    }

    /// Yields the values that `predicate`, handed the state and the item,
    /// returns; it also returns the state that the next call receives.
    fn filter_map_with<B, S, P>(self, state: S, predicate: P) -> (r: FilterMapWith<Self, P, S>)
        where
            Self: Sized,
            P: FnMut(S, Self::Item) -> (S, Option<B>),
        ensures
            r.wf(),
            r.source() == self,
            r.pred() == predicate,
            r.current_state() == state,
    {
        FilterMapWith::new(self, state, predicate)
    }
}

impl<I: Iterator> FilterWithExt for I {}

} // verus!
