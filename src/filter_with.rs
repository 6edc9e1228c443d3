use crate::trace::{accepted, chain};
use crate::hint::{filtered_hint, source_hint};
use vstd::prelude::*;
use vstd::std_specs::iter::IteratorSpec;

verus! {

/// Yields the items of `iter` that `predicate` keeps. The predicate receives
/// the state and a reference to each item, and returns the next state with its
/// decision; the state is held here between calls.
pub struct FilterWith<I, P, S> {
    iter: I,
    predicate: P,
    state: Option<S>,
}

impl<I, P, S> FilterWith<I, P, S> {
    /// The source that items are drawn from.
    pub closed spec fn source(self) -> I {
        self.iter
    }

    /// The function that decides on each item.
    pub closed spec fn pred(self) -> P {
        self.predicate
    }

    /// The state that the next call of the predicate receives.
    pub closed spec fn current_state(self) -> S {
        self.state->0
    }

    /// The state is in place between calls.
    pub closed spec fn wf(self) -> bool {
        self.state is Some
    }

    pub(crate) fn new(iter: I, state: S, predicate: P) -> (r: Self)
        ensures
            r.wf(),
            r.source() == iter,
            r.pred() == predicate,
            r.current_state() == state,
    {
        FilterWith { iter, predicate, state: Some(state) }
    }
}

impl<I: Iterator, P, S> FilterWith<I, P, S> {
    /// The source's upper bound, and no lower bound: the predicate may
    /// reject every item, and never yields more than it is given.
    pub fn size_hint(&self) -> (r: (usize, Option<usize>))
        ensures
            r.0 == 0,
    {
        filtered_hint(source_hint(&self.iter))
    }
}

impl<I: Iterator, P: FnMut(S, &I::Item) -> (S, bool), S> FilterWith<I, P, S> {
    /// Draws items from the source until the predicate keeps one, and returns
    /// it; returns `None` once the source is exhausted. Every item drawn goes
    /// through the predicate exactly once, in source order, and no item is
    /// drawn past the one that is returned.
    pub fn next(&mut self) -> (r: Option<I::Item>)
        requires
            old(self).wf(),
            old(self).source().obeys_prophetic_iter_laws(),
            old(self).source().decrease() is Some,
            forall|s: S, x: &I::Item| call_requires(old(self).pred(), (s, x)),
        ensures
            final(self).wf(),
            final(self).pred() == old(self).pred(),
            final(self).source().obeys_prophetic_iter_laws(),
            final(self).source().decrease() is Some,
            r is Some ==> final(self).source().decrease()->0 < old(self).source().decrease()->0,
            r is None ==> final(self).source().remaining().len() == 0,
            old(self).source().remaining().len() == 0 ==> {
                &&& r is None
                &&& final(self).current_state() == old(self).current_state()
                &&& final(self).source().remaining() == old(self).source().remaining()
            },
            exists|n: int, st: Seq<S>, keep: Seq<bool>| {
                &&& 0 <= n <= old(self).source().remaining().len()
                &&& chain(old(self).pred(), old(self).source().remaining().take(n), st, keep)
                &&& st[0] == old(self).current_state()
                &&& st[n] == final(self).current_state()
                &&& final(self).source().remaining() == old(self).source().remaining().skip(n)
                &&& accepted(old(self).source().remaining().take(n), keep) == match r {
                    Some(x) => seq![x],
                    None => Seq::<I::Item>::empty(),
                }
                &&& r is Some ==> keep[n - 1]
                &&& r is None ==> n == old(self).source().remaining().len()
            },
    {
        let ghost r0 = self.iter.remaining();
        let ghost d0 = self.iter.decrease()->0;
        let ghost p = self.predicate;
        let ghost s0 = self.state->0;
        let ghost mut st: Seq<S> = seq![s0];
        let ghost mut keep: Seq<bool> = seq![];
        let ghost mut n: int = 0;
        assert(p == old(self).pred());
        assert(r0.take(0) =~= Seq::<I::Item>::empty());
        loop
            invariant
                self.wf(),
                self.iter.obeys_prophetic_iter_laws(),
                self.iter.decrease() is Some,
                self.predicate == p,
                p == old(self).pred(),
                r0 == old(self).source().remaining(),
                s0 == old(self).current_state(),
                d0 == old(self).source().decrease()->0,
                n > 0 ==> self.iter.decrease()->0 < d0,
                n == 0 ==> self.iter.decrease()->0 == d0,
                forall|s: S, x: &I::Item| call_requires(p, (s, x)),
                0 <= n <= r0.len(),
                chain(p, r0.take(n), st, keep),
                st[0] == s0,
                st[n] == self.state->0,
                self.iter.remaining() == r0.skip(n),
                accepted(r0.take(n), keep) == Seq::<I::Item>::empty(),
            decreases self.iter.decrease()->0,
        {
            let x = match self.iter.next() {
                Some(x) => x,
                None => {
                    assert(r0.skip(n).len() == 0);
                    assert(chain(old(self).pred(), old(self).source().remaining().take(n), st, keep));
                    return None;
                },
            };
            assert(x == r0[n]);
            let s = self.state.take().unwrap();
            let (s1, b) = (self.predicate)(s, &x);
            self.state = Some(s1);
            proof {
                let xs = r0.take(n);
                let xs1 = r0.take(n + 1);
                assert(xs1.drop_last() =~= xs);
                assert(xs1.last() == x);
                let keep1 = keep.push(b);
                assert(keep1.take(n) =~= keep);
                let st1 = st.push(s1);
                assert forall|j: int| #![trigger keep1[j]] 0 <= j < xs1.len() implies call_ensures(p, (st1[j], &xs1[j]), (st1[j + 1], keep1[j])) by {
                    if j < n {
                        assert(xs1[j] == xs[j]);
                    }
                }
                assert(r0.skip(n + 1) =~= r0.skip(n).drop_first());
                st = st1;
                keep = keep1;
                n = n + 1;
                if b {
                    assert(accepted(xs1, keep1) == Seq::<I::Item>::empty().push(x));
                    assert(seq![x] =~= Seq::<I::Item>::empty().push(x));
                }
            }
            if b {
                assert(chain(old(self).pred(), old(self).source().remaining().take(n), st, keep));
                assert(accepted(old(self).source().remaining().take(n), keep) == seq![x]);
                return Some(x);
            }
        }
    }

    /// Draws the whole source and returns, in order, the items that the
    /// predicate keeps.
    pub fn collect_vec(self) -> (out: Vec<I::Item>)
        requires
            self.wf(),
            self.source().obeys_prophetic_iter_laws(),
            self.source().decrease() is Some,
            forall|s: S, x: &I::Item| call_requires(self.pred(), (s, x)),
        ensures
            exists|st: Seq<S>, keep: Seq<bool>| {
                &&& chain(self.pred(), self.source().remaining(), st, keep)
                &&& st[0] == self.current_state()
                &&& out@ == accepted(self.source().remaining(), keep)
            },
    {
        let ghost r0 = self.iter.remaining();
        let ghost p = self.predicate;
        let ghost s0 = self.state->0;
        let ghost mut st: Seq<S> = seq![s0];
        let ghost mut keep: Seq<bool> = seq![];
        let ghost mut n: int = 0;
        let mut iter = self.iter;
        let mut predicate = self.predicate;
        let mut state = self.state.unwrap();
        let mut out: Vec<I::Item> = Vec::new();
        assert(r0.take(0) =~= Seq::<I::Item>::empty());
        loop
            invariant
                iter.obeys_prophetic_iter_laws(),
                iter.decrease() is Some,
                predicate == p,
                p == self.pred(),
                r0 == self.source().remaining(),
                s0 == self.current_state(),
                forall|s: S, x: &I::Item| call_requires(p, (s, x)),
                0 <= n <= r0.len(),
                chain(p, r0.take(n), st, keep),
                st[0] == s0,
                st[n] == state,
                iter.remaining() == r0.skip(n),
                out@ == accepted(r0.take(n), keep),
            decreases iter.decrease()->0,
        {
            let x = match iter.next() {
                Some(x) => x,
                None => {
                    assert(r0.take(n) =~= r0);
                    return out;
                },
            };
            assert(x == r0[n]);
            let ghost gx = x;
            let (s1, b) = predicate(state, &x);
            state = s1;
            proof {
                let xs = r0.take(n);
                let xs1 = r0.take(n + 1);
                assert(xs1.drop_last() =~= xs);
                assert(xs1.last() == gx);
                let keep1 = keep.push(b);
                assert(keep1.take(n) =~= keep);
                let st1 = st.push(s1);
                assert forall|j: int| #![trigger keep1[j]] 0 <= j < xs1.len() implies call_ensures(p, (st1[j], &xs1[j]), (st1[j + 1], keep1[j])) by {
                    if j < n {
                        assert(xs1[j] == xs[j]);
                    }
                }
                assert(r0.skip(n + 1) =~= r0.skip(n).drop_first());
                st = st1;
                keep = keep1;
                n = n + 1;
            }
            if b {
                out.push(x);
            }
        }
    }
}

} // verus!
