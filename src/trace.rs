use vstd::prelude::*;

verus! {

/// `p` took the states `st` through the items `xs` in order and decided `keep`:
/// the call on `xs[j]` with state `st[j]` may return `(st[j + 1], keep[j])`.
pub open spec fn chain<S, T, P: FnMut(S, &T) -> (S, bool)>(p: P, xs: Seq<T>, st: Seq<S>, keep: Seq<bool>) -> bool {
    &&& st.len() == xs.len() + 1
    &&& keep.len() == xs.len()
    &&& forall|j: int| #![trigger keep[j]] 0 <= j < xs.len() ==> call_ensures(p, (st[j], &xs[j]), (st[j + 1], keep[j]))
}

/// `p` took the states `st` through the items `xs` in order and returned `ys`:
/// the call on `xs[j]` with state `st[j]` may return `(st[j + 1], ys[j])`.
pub open spec fn produced<S, T, B, P: FnMut(S, T) -> (S, Option<B>)>(p: P, xs: Seq<T>, st: Seq<S>, ys: Seq<Option<B>>) -> bool {
    &&& st.len() == xs.len() + 1
    &&& ys.len() == xs.len()
    &&& forall|j: int| #![trigger ys[j]] 0 <= j < xs.len() ==> call_ensures(p, (st[j], xs[j]), (st[j + 1], ys[j]))
}

/// The items of `xs` whose decision in `keep` is true, in their order.
pub open spec fn accepted<T>(xs: Seq<T>, keep: Seq<bool>) -> Seq<T>
    decreases xs.len(),
{
    if xs.len() == 0 {
        seq![]
    } else {
        let rest = accepted(xs.drop_last(), keep.take(xs.len() - 1));
        if keep[xs.len() - 1] {
            rest.push(xs.last())
        } else {
            rest
        }
    }
}

/// The values that are present in `ys`, in their order.
pub open spec fn presents<B>(ys: Seq<Option<B>>) -> Seq<B>
    decreases ys.len(),
{
    if ys.len() == 0 {
        seq![]
    } else {
        let rest = presents(ys.drop_last());
        match ys.last() {
            Some(y) => rest.push(y),
            None => rest,
        }
    }
}

/// What a stateful filter yields is a subsequence of its source: each item
/// sits at an index of the source, those indices increase, and the decision
/// made there was to keep the item.
pub proof fn lemma_accepted_subsequence<T>(xs: Seq<T>, keep: Seq<bool>) -> (idx: Seq<int>)
    requires
        keep.len() == xs.len(),
    ensures
        idx.len() == accepted(xs, keep).len(),
        forall|i: int| 0 <= i < idx.len() ==> 0 <= #[trigger] idx[i] < xs.len() && keep[idx[i]] && accepted(xs, keep)[i] == xs[idx[i]],
        forall|i: int, j: int| 0 <= i < j < idx.len() ==> idx[i] < idx[j],
        forall|j: int| 0 <= j < xs.len() && keep[j] ==> exists|i: int| 0 <= i < idx.len() && idx[i] == j,
    decreases xs.len(),
{
    if xs.len() == 0 {
        seq![]
    } else {
        let n = xs.len() - 1;
        let prev = lemma_accepted_subsequence(xs.drop_last(), keep.take(n));
        assert forall|i: int| 0 <= i < prev.len() implies keep[prev[i]] by {
            assert(keep.take(n)[prev[i]] == keep[prev[i]]);
        }
        if keep[n] {
            let idx = prev.push(n);
            assert forall|j: int| 0 <= j < xs.len() && keep[j] implies exists|i: int| 0 <= i < idx.len() && idx[i] == j by {
                if j < n {
                    assert(keep.take(n)[j] == keep[j]);
                    let i = choose|i: int| 0 <= i < prev.len() && prev[i] == j;
                    assert(idx[i] == j);
                } else {
                    assert(idx[prev.len() as int] == j);
                }
            }
            idx
        } else {
            assert forall|j: int| 0 <= j < xs.len() && keep[j] implies exists|i: int| 0 <= i < prev.len() && prev[i] == j by {
                assert(keep.take(n)[j] == keep[j]);
            }
            prev
        }
    }
}

} // verus!
