//! Input-validation rules shared by every quantizer.
//!
//! A quantizer reads two facts of an input vector before it touches its
//! components: how long it is and whether every component is finite. A
//! [`VectorShape`] carries exactly those two facts, so the rules below decide
//! every error a quantizer can return on its inputs, in the order it
//! returns them.

use vstd::prelude::*;

use crate::error::{ConfigReason, QuantizeError, Scheme};

verus! {

/// The length of an input vector and whether all its components are
/// finite.
#[derive(Debug, Clone, Copy, PartialEq, Eq)]
pub struct VectorShape {
    /// The number of components.
    pub len: usize,
    /// `true` when no component is NaN or infinite.
    pub finite: bool,
}

impl VectorShape {
    /// A vector is acceptable input when it is non-empty and finite.
    pub open spec fn is_valid(self) -> bool {
        self.len > 0 && self.finite
    }
}

/// The outcome of [`finite_non_empty`].
pub open spec fn vector_outcome(v: VectorShape) -> Result<(), QuantizeError> {
    if v.is_valid() {
        Ok(())
    } else {
        Err(QuantizeError::InvalidVector)
    }
}

/// The outcome of [`dim_eq`].
pub open spec fn dim_outcome(expected: usize, actual: usize) -> Result<(), QuantizeError> {
    if actual == expected {
        Ok(())
    } else {
        Err(QuantizeError::DimensionMismatch { expected, found: actual })
    }
}

/// Reject empty vectors and vectors with NaN or infinite components.
pub fn finite_non_empty(v: &VectorShape) -> (r: Result<(), QuantizeError>)
    ensures
        r == vector_outcome(*v),
{
    if v.len == 0 {
        return Err(QuantizeError::InvalidVector);
    }
    if !v.finite {
        return Err(QuantizeError::InvalidVector);
    }
    Ok(())
}

/// Check that `actual == expected`.
pub fn dim_eq(expected: usize, actual: usize) -> (r: Result<(), QuantizeError>)
    ensures
        r == dim_outcome(expected, actual),
{
    if actual != expected {
        return Err(QuantizeError::DimensionMismatch { expected, found: actual });
    }
    Ok(())
}

/// `v` is a valid vector of dimension `dim`.
pub open spec fn fits(v: VectorShape, dim: usize) -> bool {
    v.is_valid() && v.len == dim
}

/// `i` is the first vector of `s` that is not a valid vector of dimension
/// `dim`.
pub open spec fn is_first_misfit(s: Seq<VectorShape>, dim: usize, i: int) -> bool {
    &&& 0 <= i < s.len()
    &&& !fits(s[i], dim)
    &&& forall|j: int| 0 <= j < i ==> fits(#[trigger] s[j], dim)
}

/// The error a single misfit vector raises against dimension `dim`.
pub open spec fn misfit_error(v: VectorShape, dim: usize) -> QuantizeError {
    if !v.is_valid() {
        QuantizeError::InvalidVector
    } else {
        QuantizeError::DimensionMismatch { expected: dim, found: v.len }
    }
}

/// The outcome of validating a training set: empty sets are a
/// configuration error; otherwise the first vector that is empty,
/// non-finite, or of another length than the first one decides the error;
/// if there is none, the shared dimension.
pub open spec fn training_set_outcome(s: Seq<VectorShape>) -> Result<usize, QuantizeError> {
    if s.len() == 0 {
        Err(QuantizeError::InvalidConfig { reason: ConfigReason::EmptyTrainingSet })
    } else if forall|i: int| 0 <= i < s.len() ==> fits(#[trigger] s[i], s[0].len) {
        Ok(s[0].len)
    } else {
        let i = choose|i: int| is_first_misfit(s, s[0].len, i);
        Err(misfit_error(s[i], s[0].len))
    }
}

/// Validate a training set as a unit: non-empty, every vector valid, every
/// vector of the same dimension. Returns the shared dimension on success.
pub fn training_set(vectors: &[VectorShape]) -> (r: Result<usize, QuantizeError>)
    ensures
        r == training_set_outcome(vectors@),
{
    if vectors.len() == 0 {
        return Err(QuantizeError::InvalidConfig { reason: ConfigReason::EmptyTrainingSet });
    }
    let first = vectors[0];
    if !(first.len > 0 && first.finite) {
        proof {
            assert(is_first_misfit(vectors@, first.len, 0));
            lemma_first_misfit_unique(vectors@, first.len, 0);
        }
        return Err(QuantizeError::InvalidVector);
    }
    let dim = first.len;
    let mut i: usize = 1;
    while i < vectors.len()
        invariant
            1 <= i <= vectors.len(),
            dim == vectors@[0].len,
            forall|j: int| 0 <= j < i ==> fits(#[trigger] vectors@[j], dim),
        decreases vectors.len() - i,
    {
        let v = vectors[i];
        if !(v.len > 0 && v.finite) || v.len != dim {
            proof {
                assert(is_first_misfit(vectors@, dim, i as int));
                lemma_first_misfit_unique(vectors@, dim, i as int);
            }
            finite_non_empty(&v)?;
            dim_eq(dim, v.len)?;
        }
        i = i + 1;
    }
    Ok(dim)
}

/// The first misfit is unique, so `choose` picks the one a scan finds.
pub proof fn lemma_first_misfit_unique(s: Seq<VectorShape>, dim: usize, i: int)
    requires
        is_first_misfit(s, dim, i),
    ensures
        (choose|k: int| is_first_misfit(s, dim, k)) == i,
{
    let k = choose|k: int| is_first_misfit(s, dim, k);
    assert(is_first_misfit(s, dim, k));
    if k < i {
        assert(fits(s[k], dim));
    } else if k > i {
        assert(fits(s[i], dim));
    }
}

/// The outcome of [`require_trained`]: the trained dimension, or a
/// configuration error naming the untrained scheme.
pub open spec fn trained_outcome(trained_dim: Option<usize>, scheme: Scheme) -> Result<usize, QuantizeError> {
    match trained_dim {
        Some(dim) => Ok(dim),
        None => Err(QuantizeError::InvalidConfig { reason: ConfigReason::NotTrained(scheme) }),
    }
}

/// Every hot method of a quantizer first requires it to be trained.
pub fn require_trained(trained_dim: Option<usize>, scheme: Scheme) -> (r: Result<usize, QuantizeError>)
    ensures
        r == trained_outcome(trained_dim, scheme),
{
    match trained_dim {
        Some(dim) => Ok(dim),
        None => Err(QuantizeError::InvalidConfig { reason: ConfigReason::NotTrained(scheme) }),
    }
}

/// The outcome of [`check_query`]: untrained first, then an invalid vector,
/// then a dimension other than the trained one.
pub open spec fn query_outcome(trained_dim: Option<usize>, scheme: Scheme, query: VectorShape) -> Result<usize, QuantizeError> {
    match trained_dim {
        None => Err(QuantizeError::InvalidConfig { reason: ConfigReason::NotTrained(scheme) }),
        Some(dim) => if !query.is_valid() {
            Err(QuantizeError::InvalidVector)
        } else if query.len != dim {
            Err(QuantizeError::DimensionMismatch { expected: dim, found: query.len })
        } else {
            Ok(dim)
        },
    }
}

/// Validate an input vector to `quantize` or a query to `distance` against
/// a quantizer's trained dimension. Returns that dimension on success.
pub fn check_query(trained_dim: Option<usize>, scheme: Scheme, query: &VectorShape) -> (r: Result<usize, QuantizeError>)
    ensures
        r == query_outcome(trained_dim, scheme, *query),
{
    let dim = require_trained(trained_dim, scheme)?;
    finite_non_empty(query)?;
    dim_eq(dim, query.len)?;
    Ok(dim)
}

/// The outcome of [`check_code`]: untrained first, then a code of another
/// dimension than the trained one.
pub open spec fn code_outcome(trained_dim: Option<usize>, scheme: Scheme, code_dim: usize) -> Result<usize, QuantizeError> {
    match trained_dim {
        None => Err(QuantizeError::InvalidConfig { reason: ConfigReason::NotTrained(scheme) }),
        Some(dim) => if code_dim != dim {
            Err(QuantizeError::DimensionMismatch { expected: dim, found: code_dim })
        } else {
            Ok(dim)
        },
    }
}

/// Validate a code handed to `dequantize` against a quantizer's trained
/// dimension. Returns that dimension on success.
pub fn check_code(trained_dim: Option<usize>, scheme: Scheme, code_dim: usize) -> (r: Result<usize, QuantizeError>)
    ensures
        r == code_outcome(trained_dim, scheme, code_dim),
{
    let dim = require_trained(trained_dim, scheme)?;
    dim_eq(dim, code_dim)?;
    Ok(dim)
}

/// The outcome of [`check_query_and_code`]: the query is checked first,
/// then the code's dimension.
pub open spec fn query_and_code_outcome(
    trained_dim: Option<usize>,
    scheme: Scheme,
    query: VectorShape,
    code_dim: usize,
) -> Result<usize, QuantizeError> {
    match query_outcome(trained_dim, scheme, query) {
        Err(e) => Err(e),
        Ok(dim) => if code_dim != dim {
            Err(QuantizeError::DimensionMismatch { expected: dim, found: code_dim })
        } else {
            Ok(dim)
        },
    }
}

/// Validate a query and a stored code handed together to `distance`.
/// Returns the trained dimension on success.
pub fn check_query_and_code(
    trained_dim: Option<usize>,
    scheme: Scheme,
    query: &VectorShape,
    code_dim: usize,
) -> (r: Result<usize, QuantizeError>)
    ensures
        r == query_and_code_outcome(trained_dim, scheme, *query, code_dim),
{
    let dim = check_query(trained_dim, scheme, query)?;
    dim_eq(dim, code_dim)?;
    Ok(dim)
}

/// Some vector of `s` from position `j` on is a misfit, and none before
/// `j` is: then a first misfit exists.
proof fn lemma_first_misfit_from(s: Seq<VectorShape>, dim: usize, j: int) -> (i: int)
    requires
        0 <= j <= s.len(),
        forall|k: int| 0 <= k < j ==> fits(#[trigger] s[k], dim),
        exists|k: int| j <= k < s.len() && !fits(#[trigger] s[k], dim),
    ensures
        is_first_misfit(s, dim, i),
    decreases s.len() - j,
{
    if !fits(s[j], dim) {
        j
    } else {
        assert forall|k: int| 0 <= k < j + 1 implies fits(#[trigger] s[k], dim) by {
            if k == j {
            }
        }
        lemma_first_misfit_from(s, dim, j + 1)
    }
}

/// A non-empty training set whose vectors are all non-empty, finite and
/// as long as the first one is accepted, with that length as the trained
/// dimension; and an accepted set is exactly such a set.
pub proof fn lemma_training_set_accepts_consistent_sets(s: Seq<VectorShape>)
    ensures
        (s.len() > 0 && forall|i: int|
            0 <= i < s.len() ==> (#[trigger] s[i]).len > 0 && s[i].finite && s[i].len == s[0].len)
            ==> training_set_outcome(s) == Ok::<usize, QuantizeError>(s[0].len),
        forall|d: usize|
            training_set_outcome(s) == Ok::<usize, QuantizeError>(d) ==> s.len() > 0 && d == s[0].len
                && forall|i: int|
                0 <= i < s.len() ==> (#[trigger] s[i]).len > 0 && s[i].finite && s[i].len == d,
{
    if s.len() > 0 && forall|i: int|
        0 <= i < s.len() ==> (#[trigger] s[i]).len > 0 && s[i].finite && s[i].len == s[0].len {
        assert forall|i: int| 0 <= i < s.len() implies fits(#[trigger] s[i], s[0].len) by {
            assert(s[i].len > 0 && s[i].finite && s[i].len == s[0].len);
        }
    }
    if s.len() > 0 && !(forall|i: int| 0 <= i < s.len() ==> fits(#[trigger] s[i], s[0].len)) {
        let i = lemma_first_misfit_from(s, s[0].len, 0);
        lemma_first_misfit_unique(s, s[0].len, i);
    }
}

/// The empty-set error arises exactly on an empty training set; every other
/// rejection names an invalid vector or a vector whose length differs from
/// the first one's.
pub proof fn lemma_training_set_errors(s: Seq<VectorShape>)
    ensures
        training_set_outcome(s) == Err::<usize, QuantizeError>(
            QuantizeError::InvalidConfig { reason: ConfigReason::EmptyTrainingSet },
        ) <==> s.len() == 0,
        training_set_outcome(s) == Err::<usize, QuantizeError>(QuantizeError::InvalidVector) ==> exists|i: int|
            0 <= i < s.len() && !(#[trigger] s[i]).is_valid(),
        forall|e: usize, f: usize|
            training_set_outcome(s) == Err::<usize, QuantizeError>(
                QuantizeError::DimensionMismatch { expected: e, found: f },
            ) ==> s.len() > 0 && e == s[0].len && e != f && exists|i: int|
                0 <= i < s.len() && (#[trigger] s[i]).len == f,
{
    if s.len() > 0 && !(forall|i: int| 0 <= i < s.len() ==> fits(#[trigger] s[i], s[0].len)) {
        let i = lemma_first_misfit_from(s, s[0].len, 0);
        lemma_first_misfit_unique(s, s[0].len, i);
    }
}

/// A valid vector of the trained dimension is accepted as a query, with
/// that dimension; an untrained quantizer rejects every query; an invalid
/// vector is rejected as such by a trained one; and a dimension mismatch
/// reports the trained dimension and the query's length, which differ.
pub proof fn lemma_query_checks(trained_dim: Option<usize>, scheme: Scheme, query: VectorShape)
    ensures
        forall|d: usize|
            trained_dim == Some(d) && query.len > 0 && query.finite && query.len == d
                ==> #[trigger] query_outcome(trained_dim, scheme, query) == Ok::<usize, QuantizeError>(d),
        trained_dim is None ==> query_outcome(trained_dim, scheme, query) == Err::<usize, QuantizeError>(
            QuantizeError::InvalidConfig { reason: ConfigReason::NotTrained(scheme) },
        ),
        query_outcome(trained_dim, scheme, query) == Err::<usize, QuantizeError>(QuantizeError::InvalidVector)
            <==> (trained_dim is Some && !(query.len > 0 && query.finite)),
        forall|e: usize, f: usize|
            query_outcome(trained_dim, scheme, query) == Err::<usize, QuantizeError>(
                QuantizeError::DimensionMismatch { expected: e, found: f },
            ) ==> trained_dim == Some(e) && f == query.len && e != f,
        forall|d: usize|
            query_outcome(trained_dim, scheme, query) == Ok::<usize, QuantizeError>(d) ==> trained_dim
                == Some(d) && query.len == d && query.len > 0 && query.finite,
{
}

/// A code of the trained dimension is accepted, with that dimension; a
/// code of another dimension reports both; an untrained quantizer rejects
/// every code.
pub proof fn lemma_code_checks(trained_dim: Option<usize>, scheme: Scheme, code_dim: usize)
    ensures
        trained_dim == Some(code_dim) ==> code_outcome(trained_dim, scheme, code_dim) == Ok::<usize, QuantizeError>(code_dim),
        forall|d: usize|
            trained_dim == Some(d) && d != code_dim ==> #[trigger] code_outcome(trained_dim, scheme, code_dim)
                == Err::<usize, QuantizeError>(QuantizeError::DimensionMismatch { expected: d, found: code_dim }),
        trained_dim is None ==> code_outcome(trained_dim, scheme, code_dim) == Err::<usize, QuantizeError>(
            QuantizeError::InvalidConfig { reason: ConfigReason::NotTrained(scheme) },
        ),
{
}

/// A valid query and a code, both of the trained dimension, are accepted
/// together, with that dimension; any acceptance means exactly that.
pub proof fn lemma_query_and_code_checks(
    trained_dim: Option<usize>,
    scheme: Scheme,
    query: VectorShape,
    code_dim: usize,
)
    ensures
        forall|d: usize|
            trained_dim == Some(d) && query.len > 0 && query.finite && query.len == d && code_dim == d
                ==> #[trigger] query_and_code_outcome(trained_dim, scheme, query, code_dim) == Ok::<
                usize,
                QuantizeError,
            >(d),
        forall|d: usize|
            query_and_code_outcome(trained_dim, scheme, query, code_dim) == Ok::<usize, QuantizeError>(d)
                ==> trained_dim == Some(d) && query.len == d && code_dim == d && query.len > 0
                && query.finite,
{
}

/// A vector is rejected as invalid exactly when it is empty or holds a
/// non-finite component; two dimensions are accepted exactly when equal.
pub proof fn lemma_vector_and_dim_checks(v: VectorShape, expected: usize, actual: usize)
    ensures
        vector_outcome(v) == Ok::<(), QuantizeError>(()) <==> (v.len > 0 && v.finite),
        vector_outcome(v) is Err ==> vector_outcome(v) == Err::<(), QuantizeError>(QuantizeError::InvalidVector),
        dim_outcome(expected, actual) == Ok::<(), QuantizeError>(()) <==> expected == actual,
        expected != actual ==> dim_outcome(expected, actual) == Err::<(), QuantizeError>(
            QuantizeError::DimensionMismatch { expected, found: actual },
        ),
{
}

/// A rejected non-empty training set is rejected for its first vector `i`
/// that is empty, non-finite or of another length than the first one: every
/// vector before it is valid and of the first one's length, and the error
/// names that vector's fault.
pub proof fn lemma_training_set_names_first_fault(s: Seq<VectorShape>) -> (i: int)
    requires
        s.len() > 0,
        training_set_outcome(s) is Err,
    ensures
        0 <= i < s.len(),
        forall|j: int| 0 <= j < i ==> (#[trigger] s[j]).len > 0 && s[j].finite && s[j].len == s[0].len,
        !(s[i].len > 0 && s[i].finite) ==> training_set_outcome(s) == Err::<usize, QuantizeError>(
            QuantizeError::InvalidVector,
        ),
        (s[i].len > 0 && s[i].finite) ==> s[i].len != s[0].len && training_set_outcome(s) == Err::<
            usize,
            QuantizeError,
        >(QuantizeError::DimensionMismatch { expected: s[0].len, found: s[i].len }),
{
    let i = lemma_first_misfit_from(s, s[0].len, 0);
    lemma_first_misfit_unique(s, s[0].len, i);
    assert forall|j: int| 0 <= j < i implies (#[trigger] s[j]).len > 0 && s[j].finite && s[j].len
        == s[0].len by {
        assert(fits(s[j], s[0].len));
    }
    assert(!(forall|k: int| 0 <= k < s.len() ==> fits(#[trigger] s[k], s[0].len)));
    assert(training_set_outcome(s) == Err::<usize, QuantizeError>(misfit_error(s[i], s[0].len)));
    assert(!fits(s[i], s[0].len));
    i
}

/// A trained quantizer reports its dimension; an untrained one reports
/// that it is not trained, naming its scheme.
pub proof fn lemma_trained_checks(trained_dim: Option<usize>, scheme: Scheme)
    ensures
        forall|d: usize|
            trained_dim == Some(d) ==> #[trigger] trained_outcome(trained_dim, scheme) == Ok::<usize, QuantizeError>(d),
        trained_dim is None ==> trained_outcome(trained_dim, scheme) == Err::<usize, QuantizeError>(
            QuantizeError::InvalidConfig { reason: ConfigReason::NotTrained(scheme) },
        ),
{
}

} // verus!


