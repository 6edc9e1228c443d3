use vstd::prelude::*;

verus! {

/// Relies on `Iterator::size_hint` of the source only to be callable: what an
/// arbitrary iterator reports is advisory, so nothing is assumed of it.
#[verifier::external_body]
pub(crate) fn source_hint<Src: Iterator>(src: &Src) -> (usize, Option<usize>) {
    src.size_hint()
}

/// The length hint of a filtering adaptor whose source hints `source`: the
/// adaptor may yield nothing at all, and never more than its source.
pub fn filtered_hint(source: (usize, Option<usize>)) -> (r: (usize, Option<usize>))
    ensures
        r == (0usize, source.1),
{
    (0, source.1)
}

} // verus!
