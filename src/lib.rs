//! Stateful filter and filter-map adaptors over any iterator.
//!
//! A caller hands an adaptor an initial state and a function. Each item drawn
//! from the source goes to the function together with the current state; the
//! function returns the next state with its decision. The adaptors own the
//! state for their whole life, and the contracts describe every output as a
//! replay of those calls in source order.

mod ext;
mod filter_map_with;
mod filter_with;
mod hint;
mod trace;

pub use ext::FilterWithExt;
pub use filter_map_with::FilterMapWith;
pub use filter_with::FilterWith;
pub use hint::filtered_hint;
pub use trace::{
    accepted, chain, lemma_accepted_subsequence, presents, produced,
};
