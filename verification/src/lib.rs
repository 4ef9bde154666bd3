//! A compact, immutable container for an ordered sequence of strings.
//!
//! All elements are stored in one contiguous character buffer together with a
//! compact array of boundary offsets, instead of one heap allocation per
//! string. The container is build-once, read-many: construction, positional
//! lookup, iteration, equality and round-trip conversion to a plain vector of
//! strings are the whole interface.

pub mod concat;
pub mod dense;

pub use dense::DenseStringVecIter;
pub use dense::DenseStrings;
pub use dense::lemma_eq_consistency;
pub use dense::lemma_len_consistency;
pub use dense::lemma_round_trip;
