//! The error vocabulary of the library.
//!
//! Every fallible check returns a [`QuantizeError`]; nothing here panics on
//! bad input.

use vstd::prelude::*;

verus! {

/// The quantization scheme an error concerns.
#[derive(Debug, Clone, Copy, PartialEq, Eq)]
pub enum Scheme {
    /// Scalar quantization (one byte per dimension).
    Scalar,
    /// Binary quantization (one bit per dimension).
    Binary,
    /// Product quantization (one centroid index per subvector).
    Product,
}

/// Which configuration check failed.
#[derive(Debug, Clone, Copy, PartialEq, Eq)]
pub enum ConfigReason {
    /// A quantizer was used before it was trained.
    NotTrained(Scheme),
    /// The training set holds no vectors.
    EmptyTrainingSet,
    /// A product quantizer was configured with zero subvectors.
    ZeroSubvectors,
    /// A product quantizer was configured with zero centroids.
    ZeroCentroids,
    /// A product quantizer was configured with more centroids than a byte
    /// can index.
    TooManyCentroids,
    /// The training dimension is zero or not a multiple of the subvector
    /// count.
    DimNotMultipleOfSubvectors,
    /// The training set holds fewer vectors than centroids.
    TooFewTrainingVectors,
    /// A codebook was to be trained on an empty sample.
    EmptyCodebookSample,
    /// A codebook sample holds fewer points than centroids.
    CodebookSampleTooSmall,
}

/// The operator-facing text of each configuration failure.
pub open spec fn reason_text(reason: ConfigReason) -> Seq<char> {
    match reason {
        ConfigReason::NotTrained(Scheme::Scalar) => "ScalarQuantizer has not been trained"@,
        ConfigReason::NotTrained(Scheme::Binary) => "BinaryQuantizer has not been trained"@,
        ConfigReason::NotTrained(Scheme::Product) => "ProductQuantizer has not been trained"@,
        ConfigReason::EmptyTrainingSet => "quantizer training set is empty"@,
        ConfigReason::ZeroSubvectors => "ProductQuantizer requires n_subvectors >= 1"@,
        ConfigReason::ZeroCentroids => "ProductQuantizer requires n_centroids >= 1"@,
        ConfigReason::TooManyCentroids => "ProductQuantizer requires n_centroids <= 256 (one byte per code)"@,
        ConfigReason::DimNotMultipleOfSubvectors => "ProductQuantizer requires training dim to be a positive multiple of n_subvectors"@,
        ConfigReason::TooFewTrainingVectors => "ProductQuantizer requires training_set.len() >= n_centroids"@,
        ConfigReason::EmptyCodebookSample => "ProductQuantizer codebook training requires a non-empty sample"@,
        ConfigReason::CodebookSampleTooSmall => "ProductQuantizer codebook training requires sample size >= n_centroids"@,
    }
}

impl ConfigReason {
    /// A short static description of the failed check.
    pub fn message(&self) -> (r: &'static str)
        ensures
            r@ == reason_text(*self),
    {
        match self {
            ConfigReason::NotTrained(Scheme::Scalar) => "ScalarQuantizer has not been trained",
            ConfigReason::NotTrained(Scheme::Binary) => "BinaryQuantizer has not been trained",
            ConfigReason::NotTrained(Scheme::Product) => "ProductQuantizer has not been trained",
            ConfigReason::EmptyTrainingSet => "quantizer training set is empty",
            ConfigReason::ZeroSubvectors => "ProductQuantizer requires n_subvectors >= 1",
            ConfigReason::ZeroCentroids => "ProductQuantizer requires n_centroids >= 1",
            ConfigReason::TooManyCentroids => "ProductQuantizer requires n_centroids <= 256 (one byte per code)",
            ConfigReason::DimNotMultipleOfSubvectors => "ProductQuantizer requires training dim to be a positive multiple of n_subvectors",
            ConfigReason::TooFewTrainingVectors => "ProductQuantizer requires training_set.len() >= n_centroids",
            ConfigReason::EmptyCodebookSample => "ProductQuantizer codebook training requires a non-empty sample",
            ConfigReason::CodebookSampleTooSmall => "ProductQuantizer codebook training requires sample size >= n_centroids",
        }
    }
}

/// A typed failure of a quantizer operation.
#[derive(Debug, Clone, Copy, PartialEq, Eq)]
pub enum QuantizeError {
    /// A vector or code did not have the dimensionality the operation
    /// required.
    DimensionMismatch {
        /// The dimensionality the operation required.
        expected: usize,
        /// The dimensionality that was supplied.
        found: usize,
    },
    /// A vector was empty or held a non-finite component, or a code named
    /// a centroid its quantizer's codebooks or distance table do not hold.
    InvalidVector,
    /// A configuration could not describe a working quantizer, or the
    /// quantizer was used before training.
    InvalidConfig {
        /// Which check failed.
        reason: ConfigReason,
    },
    /// The distance metric is not supported by the scheme.
    InvalidMetric,
}

} // verus!
