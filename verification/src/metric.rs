//! The distance metrics a caller may ask for.

use vstd::prelude::*;

verus! {

/// The metric used to measure distance between a query and a code.
#[derive(Debug, Clone, Copy, PartialEq, Eq)]
pub enum Metric {
    /// Cosine distance.
    Cosine,
    /// Dot-product similarity.
    DotProduct,
    /// Euclidean (L2) distance.
    Euclidean,
    /// Manhattan (L1) distance.
    Manhattan,
    /// Hamming distance.
    Hamming,
    /// A metric this library does not know.
    Unrecognized,
}

} // verus!
