//! The integer side of product quantization: the configured shape, the
//! checks training and scoring make against it, and the layout of codes,
//! codebooks and distance tables.
//!
//! A product quantizer splits each vector into `M` equal subvectors and
//! learns `K <= 256` centroids per subvector, so a code is `M` bytes, one
//! centroid index per subvector. The centroid values themselves are data
//! this module only moves around; it never computes with them.

use vstd::prelude::*;

use crate::code::PqCode;
use crate::error::{ConfigReason, QuantizeError, Scheme};
use crate::metric::Metric;
use crate::validate::{
    check_query, query_outcome, training_set, training_set_outcome, VectorShape,
};

verus! {

/// Default number of subvectors.
pub const DEFAULT_N_SUBVECTORS: usize = 8;

/// Default number of centroids per subvector codebook.
pub const DEFAULT_N_CENTROIDS: usize = 256;

/// Upper bound on the number of centroids: codes are stored as `u8`.
pub const MAX_N_CENTROIDS: usize = 256;

/// Default training seed.
pub const DEFAULT_SEED: u64 = 0;

/// The configured shape of a product quantizer: `M` subvectors, `K`
/// centroids per subvector, and the training seed. Any values may be
/// stored; they are checked against the data at training time.
#[derive(Debug, Clone, Copy, PartialEq, Eq)]
pub struct PqConfig {
    n_subvectors: usize,
    n_centroids: usize,
    seed: u64,
}

impl View for PqConfig {
    /// `(M, K, seed)`.
    type V = (usize, usize, u64);

    closed spec fn view(&self) -> (usize, usize, u64) {
        (self.n_subvectors, self.n_centroids, self.seed)
    }
}

/// The outcome of [`PqConfig::validate_shape`]: each configuration check in
/// turn, then the subvector length `dim / M`.
pub open spec fn shape_outcome(
    n_subvectors: usize,
    n_centroids: usize,
    dim: usize,
    training_count: usize,
) -> Result<usize, QuantizeError> {
    if n_subvectors == 0 {
        Err(QuantizeError::InvalidConfig { reason: ConfigReason::ZeroSubvectors })
    } else if n_centroids == 0 {
        Err(QuantizeError::InvalidConfig { reason: ConfigReason::ZeroCentroids })
    } else if n_centroids > MAX_N_CENTROIDS {
        Err(QuantizeError::InvalidConfig { reason: ConfigReason::TooManyCentroids })
    } else if dim == 0 || dim % n_subvectors != 0 {
        Err(QuantizeError::InvalidConfig { reason: ConfigReason::DimNotMultipleOfSubvectors })
    } else if training_count < n_centroids {
        Err(QuantizeError::InvalidConfig { reason: ConfigReason::TooFewTrainingVectors })
    } else {
        Ok((dim / n_subvectors) as usize)
    }
}

/// The trained shape of a product quantizer: dimension, `M`, subvector
/// length and `K`, with `dim == M * sub_dim`, `M >= 1`, `sub_dim >= 1` and
/// `1 <= K <= 256`.
#[derive(Debug, Clone, Copy, PartialEq, Eq)]
pub struct PqLayout {
    dim: usize,
    n_subvectors: usize,
    sub_dim: usize,
    n_centroids: usize,
}

impl View for PqLayout {
    /// `(dim, M, sub_dim, K)`.
    type V = (usize, usize, usize, usize);

    closed spec fn view(&self) -> (usize, usize, usize, usize) {
        (self.dim, self.n_subvectors, self.sub_dim, self.n_centroids)
    }
}

impl PqLayout {
    #[verifier::type_invariant]
    closed spec fn well_formed(self) -> bool {
        layout_valid(self@)
    }
}

/// A layout view satisfies the shape invariant.
pub open spec fn layout_valid(l: (usize, usize, usize, usize)) -> bool {
    &&& l.1 >= 1
    &&& l.2 >= 1
    &&& l.0 == l.1 * l.2
    &&& 1 <= l.3 <= MAX_N_CENTROIDS
}

impl PqConfig {
    /// The standard shape: `M = 8`, `K = 256`, `seed = 0`.
    pub fn new() -> (r: Self)
        ensures
            r@ == (DEFAULT_N_SUBVECTORS, DEFAULT_N_CENTROIDS, DEFAULT_SEED),
    {
        Self::with_config(DEFAULT_N_SUBVECTORS, DEFAULT_N_CENTROIDS, DEFAULT_SEED)
    }

    /// Store the given shape and training seed.
    pub fn with_config(n_subvectors: usize, n_centroids: usize, seed: u64) -> (r: Self)
        ensures
            r@ == (n_subvectors, n_centroids, seed),
    {
        PqConfig { n_subvectors, n_centroids, seed }
    }

    /// The configured number of subvectors `M`.
    pub fn n_subvectors(&self) -> (r: usize)
        ensures
            r == self@.0,
    {
        self.n_subvectors
    }

    /// The configured number of centroids per subvector codebook `K`.
    pub fn n_centroids(&self) -> (r: usize)
        ensures
            r == self@.1,
    {
        self.n_centroids
    }

    /// The configured training seed.
    pub fn seed(&self) -> (r: u64)
        ensures
            r == self@.2,
    {
        self.seed
    }

    /// The seed of the k-means run for subvector `m`: the base seed plus
    /// `m`, wrapping, so the `M` runs draw from different states.
    pub fn codebook_seed(&self, m: usize) -> (r: u64)
        ensures
            r == ((self@.2 + m) % 0x1_0000_0000_0000_0000) as u64,
    {
        let mm = m as u64;
        self.seed.wrapping_add(mm)
    }

    /// Validate the configured shape against the training-set dimension and
    /// size. Returns the trained layout on success.
    pub fn validate_shape(&self, dim: usize, training_count: usize) -> (r: Result<
        PqLayout,
        QuantizeError,
    >)
        ensures
            match r {
                Ok(l) => shape_outcome(self@.0, self@.1, dim, training_count) == Ok::<
                    usize,
                    QuantizeError,
                >(l@.2) && l@ == (dim, self@.0, l@.2, self@.1) && layout_valid(l@),
                Err(e) => shape_outcome(self@.0, self@.1, dim, training_count) == Err::<
                    usize,
                    QuantizeError,
                >(e),
            },
    {
        if self.n_subvectors == 0 {
            return Err(QuantizeError::InvalidConfig { reason: ConfigReason::ZeroSubvectors });
        }
        if self.n_centroids == 0 {
            return Err(QuantizeError::InvalidConfig { reason: ConfigReason::ZeroCentroids });
        }
        if self.n_centroids > MAX_N_CENTROIDS {
            return Err(QuantizeError::InvalidConfig { reason: ConfigReason::TooManyCentroids });
        }
        if dim == 0 || dim % self.n_subvectors != 0 {
            return Err(
                QuantizeError::InvalidConfig { reason: ConfigReason::DimNotMultipleOfSubvectors },
            );
        }
        if training_count < self.n_centroids {
            return Err(
                QuantizeError::InvalidConfig { reason: ConfigReason::TooFewTrainingVectors },
            );
        }
        let sub_dim = dim / self.n_subvectors;
        proof {
            vstd::arithmetic::div_mod::lemma_fundamental_div_mod(dim as int, self.n_subvectors as int);
            assert(dim == self.n_subvectors * sub_dim) by (nonlinear_arith)
                requires
                    dim == self.n_subvectors * (dim / self.n_subvectors) + dim % self.n_subvectors,
                    dim % self.n_subvectors == 0,
                    sub_dim == dim / self.n_subvectors,
            ;
            assert(sub_dim >= 1) by (nonlinear_arith)
                requires
                    dim == self.n_subvectors * sub_dim,
                    dim > 0,
            ;
        }
        Ok(PqLayout { dim, n_subvectors: self.n_subvectors, sub_dim, n_centroids: self.n_centroids })
    }
}

/// The codebooks of a layout: `M` codebooks of `K` centroids of
/// `sub_dim` values each.
pub open spec fn codebooks_shaped<T>(l: (usize, usize, usize, usize), codebooks: Seq<Vec<Vec<T>>>) -> bool {
    &&& codebooks.len() == l.1
    &&& forall|m: int| 0 <= m < l.1 ==> (#[trigger] codebooks[m])@.len() == l.3
    &&& forall|m: int, k: int|
        0 <= m < l.1 && 0 <= k < l.3 ==> (#[trigger] codebooks[m]@[k])@.len() == l.2
}

/// Every centroid index of `codes` names a centroid of a codebook with `K`
/// centroids.
pub open spec fn indices_below(codes: Seq<u8>, n_centroids: usize) -> bool {
    forall|m: int| 0 <= m < codes.len() ==> #[trigger] codes[m] < n_centroids
}

/// The centroids a code selects, one per subvector, laid end to end.
pub open spec fn selected_centroids<T>(codebooks: Seq<Vec<Vec<T>>>, codes: Seq<u8>) -> Seq<T> {
    Seq::new(codes.len(), |m: int| codebooks[m]@[codes[m] as int]@).flatten()
}

/// The outcome of [`PqLayout::check_code_indices`]: every centroid index
/// of the code must name a centroid of the layout's codebooks; a code that
/// names a centroid beyond `K` (one made under more centroids) is an
/// invalid vector.
pub open spec fn indices_outcome(l: (usize, usize, usize, usize), codes: Seq<u8>) -> Result<(), QuantizeError> {
    if indices_below(codes, l.3) {
        Ok(())
    } else {
        Err(QuantizeError::InvalidVector)
    }
}

/// The outcome of [`PqLayout::check_code_for_decode`]: the dimension is
/// checked first, then the number of subvectors, then the centroid indices.
pub open spec fn decode_check_outcome(l: (usize, usize, usize, usize), code_dim: usize, codes: Seq<u8>) -> Result<(), QuantizeError> {
    if code_dim != l.0 {
        Err(QuantizeError::DimensionMismatch { expected: l.0, found: code_dim })
    } else if codes.len() != l.1 {
        Err(QuantizeError::DimensionMismatch { expected: l.1, found: codes.len() as usize })
    } else {
        indices_outcome(l, codes)
    }
}

/// The outcome of [`PqLayout::check_code_for_scoring`]: the number of
/// subvectors is checked first, then the dimension. The centroid indices
/// are not checked here: a table lookup decides them (see
/// [`PqLayout::select_entries`]).
pub open spec fn scoring_check_outcome(l: (usize, usize, usize, usize), code_dim: usize, code_len: nat) -> Result<(), QuantizeError> {
    if code_len != l.1 {
        Err(QuantizeError::DimensionMismatch { expected: l.1, found: code_len as usize })
    } else if code_dim != l.0 {
        Err(QuantizeError::DimensionMismatch { expected: l.0, found: code_dim })
    } else {
        Ok(())
    }
}

/// Every entry `m * K + codes[m]` a code selects lies inside a table of
/// `table_len` entries.
pub open spec fn entries_in_table(l: (usize, usize, usize, usize), codes: Seq<u8>, table_len: nat) -> bool {
    forall|m: int| 0 <= m < l.1 ==> #[trigger] entry_index(l, codes, m) < table_len
}

/// The entries a code selects from a table, one per subvector.
pub open spec fn selected_entries<T>(l: (usize, usize, usize, usize), codes: Seq<u8>, table: Seq<T>) -> Seq<T> {
    Seq::new(l.1 as nat, |m: int| table[entry_index(l, codes, m)])
}

/// The rows of a distance table laid end to end: `M` rows of `K` entries.
pub open spec fn assembled_rows<T>(rows: Seq<Vec<T>>) -> Seq<T> {
    Seq::new(rows.len(), |m: int| rows[m]@).flatten()
}

impl PqLayout {
    /// The trained dimension.
    pub fn dim(&self) -> (r: usize)
        ensures
            r == self@.0,
            layout_valid(self@),
    {
        proof {
            use_type_invariant(self);
        }
        self.dim
    }

    /// The number of subvectors `M`.
    pub fn n_subvectors(&self) -> (r: usize)
        ensures
            r == self@.1,
            layout_valid(self@),
    {
        proof {
            use_type_invariant(self);
        }
        self.n_subvectors
    }

    /// The length of each subvector, `dim / M`.
    pub fn sub_dim(&self) -> (r: usize)
        ensures
            r == self@.2,
            layout_valid(self@),
    {
        proof {
            use_type_invariant(self);
        }
        self.sub_dim
    }

    /// The number of centroids per subvector codebook `K`.
    pub fn n_centroids(&self) -> (r: usize)
        ensures
            r == self@.3,
            layout_valid(self@),
    {
        proof {
            use_type_invariant(self);
        }
        self.n_centroids
    }

    /// The range `start..end` of subvector `m` within a vector of the
    /// trained dimension.
    pub fn subvector_bounds(&self, m: usize) -> (r: (usize, usize))
        requires
            m < self@.1,
        ensures
            r.0 == m * self@.2,
            r.1 == r.0 + self@.2,
            r.1 <= self@.0,
    {
        proof {
            use_type_invariant(self);
            assert(m * self.sub_dim + self.sub_dim <= self.n_subvectors * self.sub_dim)
                by (nonlinear_arith)
                requires
                    m < self.n_subvectors,
            ;
        }
        let start = m * self.sub_dim;
        (start, start + self.sub_dim)
    }

    /// Check that every centroid index of `code` names a centroid of the
    /// layout's codebooks, so the code can be decoded and scored.
    pub fn check_code_indices(&self, code: &PqCode) -> (r: Result<(), QuantizeError>)
        ensures
            r == indices_outcome(self@, code@),
    {
        let codes = code.as_bytes();
        let mut m: usize = 0;
        while m < codes.len()
            invariant
                m <= codes@.len(),
                codes@ == code@,
                forall|j: int| 0 <= j < m ==> #[trigger] codes@[j] < self@.3,
            decreases codes@.len() - m,
        {
            if codes[m] as usize >= self.n_centroids {
                return Err(QuantizeError::InvalidVector);
            }
            m = m + 1;
        }
        Ok(())
    }

    /// Check a code handed to `dequantize`: its dimension, then its number
    /// of subvectors, must match the layout, and every centroid index must
    /// lie below `K`. On success the code can be decoded by [`Self::gather`].
    pub fn check_code_for_decode(&self, code: &PqCode) -> (r: Result<(), QuantizeError>)
        ensures
            r == decode_check_outcome(self@, code.spec_dim(), code@),
            r is Ok ==> code@.len() == self@.1 && indices_below(code@, self@.3),
    {
        if code.dim() != self.dim {
            return Err(QuantizeError::DimensionMismatch { expected: self.dim, found: code.dim() });
        }
        if code.n_subvectors() != self.n_subvectors {
            return Err(
                QuantizeError::DimensionMismatch {
                    expected: self.n_subvectors,
                    found: code.n_subvectors(),
                },
            );
        }
        self.check_code_indices(code)
    }

    /// Check a code handed to a distance table: its number of subvectors,
    /// then its dimension, must match the layout.
    pub fn check_code_for_scoring(&self, code: &PqCode) -> (r: Result<(), QuantizeError>)
        ensures
            r == scoring_check_outcome(self@, code.spec_dim(), code@.len()),
    {
        if code.n_subvectors() != self.n_subvectors {
            return Err(
                QuantizeError::DimensionMismatch {
                    expected: self.n_subvectors,
                    found: code.n_subvectors(),
                },
            );
        }
        if code.dim() != self.dim {
            return Err(QuantizeError::DimensionMismatch { expected: self.dim, found: code.dim() });
        }
        Ok(())
    }

    /// Build the code of a vector from the index of its nearest centroid in
    /// each subvector codebook.
    pub fn encode(&self, indices: &Vec<usize>) -> (r: PqCode)
        requires
            indices@.len() == self@.1,
            forall|m: int| 0 <= m < indices@.len() ==> #[trigger] indices@[m] < self@.3,
        ensures
            r@.len() == self@.1,
            forall|m: int| 0 <= m < indices@.len() ==> r@[m] == #[trigger] indices@[m],
            r.spec_dim() == self@.0,
            indices_below(r@, self@.3),
    {
        proof {
            use_type_invariant(self);
        }
        let r = PqCode::from_centroid_indices(indices, self.dim);
        proof {
            assert forall|m: int| 0 <= m < r@.len() implies #[trigger] r@[m] < self@.3 by {
                assert(r@[m] == indices@[m]);
            }
        }
        r
    }

    /// Decode a code: the centroid it selects in each subvector codebook,
    /// laid end to end, a vector of the trained dimension.
    pub fn gather<T: Copy>(&self, codebooks: &Vec<Vec<Vec<T>>>, code: &PqCode) -> (r: Vec<T>)
        requires
            codebooks_shaped(self@, codebooks@),
            code@.len() == self@.1,
            indices_below(code@, self@.3),
        ensures
            r@ == selected_centroids(codebooks@, code@),
            r@.len() == self@.0,
    {
        proof {
            use_type_invariant(self);
        }
        let codes = code.as_bytes();
        let mut out: Vec<T> = Vec::new();
        let mut m: usize = 0;
        while m < self.n_subvectors
            invariant
                m <= self@.1,
                codes@ == code@,
                codes@.len() == self@.1,
                codebooks_shaped(self@, codebooks@),
                indices_below(code@, self@.3),
                layout_valid(self@),
                out@ == Seq::new(m as nat, |j: int| codebooks@[j]@[codes@[j] as int]@).flatten(),
                out@.len() == m * self@.2,
            decreases self@.1 - m,
        {
            let k = codes[m] as usize;
            let centroid = &codebooks[m][k];
            let ghost before = out@;
            let mut j: usize = 0;
            while j < self.sub_dim
                invariant
                    j <= self@.2,
                    centroid@.len() == self@.2,
                    out@ == before + centroid@.subrange(0, j as int),
                decreases self@.2 - j,
            {
                out.push(centroid[j]);
                j = j + 1;
                proof {
                    assert(out@ =~= before + centroid@.subrange(0, j as int));
                }
            }
            proof {
                assert(centroid@.subrange(0, self@.2 as int) =~= centroid@);
                let prev = Seq::new(m as nat, |i: int| codebooks@[i]@[codes@[i] as int]@);
                let next = Seq::new((m + 1) as nat, |i: int| codebooks@[i]@[codes@[i] as int]@);
                assert(next =~= prev.push(centroid@));
                prev.lemma_flatten_push(centroid@);
                assert((m + 1) * self@.2 == m * self@.2 + self@.2) by (nonlinear_arith);
            }
            m = m + 1;
        }
        proof {
            assert(Seq::new(self@.1 as nat, |j: int| codebooks@[j]@[codes@[j] as int]@) =~= Seq::new(
                code@.len(),
                |j: int| codebooks@[j]@[code@[j] as int]@,
            ));
            assert(self@.1 * self@.2 == self@.0);
        }
        out
    }

    /// Lay `M` rows of `K` entries end to end into a distance table: entry
    /// `k` of row `m` lands at `m * K + k`.
    pub fn assemble_table<T: Copy>(&self, rows: &Vec<Vec<T>>) -> (r: Vec<T>)
        requires
            rows@.len() == self@.1,
            forall|m: int| 0 <= m < self@.1 ==> (#[trigger] rows@[m])@.len() == self@.3,
        ensures
            r@ == assembled_rows(rows@),
            r@.len() == self@.1 * self@.3,
            forall|m: int, k: int|
                0 <= m < self@.1 && 0 <= k < self@.3 ==> r@[m * self@.3 + k] == #[trigger] rows@[m]@[k],
    {
        proof {
            use_type_invariant(self);
        }
        let mut out: Vec<T> = Vec::new();
        let mut m: usize = 0;
        while m < rows.len()
            invariant
                m <= rows@.len(),
                rows@.len() == self@.1,
                forall|i: int| 0 <= i < self@.1 ==> (#[trigger] rows@[i])@.len() == self@.3,
                out@ == Seq::new(m as nat, |i: int| rows@[i]@).flatten(),
            decreases rows@.len() - m,
        {
            let row = &rows[m];
            let ghost before = out@;
            let mut k: usize = 0;
            while k < row.len()
                invariant
                    k <= row@.len(),
                    out@ == before + row@.subrange(0, k as int),
                decreases row@.len() - k,
            {
                out.push(row[k]);
                k = k + 1;
                proof {
                    assert(out@ =~= before + row@.subrange(0, k as int));
                }
            }
            proof {
                assert(row@.subrange(0, row@.len() as int) =~= row@);
                let prev = Seq::new(m as nat, |i: int| rows@[i]@);
                let next = Seq::new((m + 1) as nat, |i: int| rows@[i]@);
                assert(next =~= prev.push(row@));
                prev.lemma_flatten_push(row@);
            }
            m = m + 1;
        }
        proof {
            let pieces = Seq::new(rows@.len(), |i: int| rows@[i]@);
            assert(pieces =~= Seq::new(m as nat, |i: int| rows@[i]@));
            assert forall|i: int| 0 <= i < pieces.len() implies (#[trigger] pieces[i]).len() == self@.3 by {
                assert(pieces[i] == rows@[i]@);
            }
            if pieces.len() > 0 {
                lemma_flatten_uniform(pieces, self@.3 as nat, 0);
            } else {
                assert(pieces.flatten() =~= Seq::<T>::empty());
            }
            assert forall|mm: int, k: int|
                0 <= mm < self@.1 && 0 <= k < self@.3 implies out@[mm * self@.3 + k] == #[trigger] rows@[mm]@[k] by {
                lemma_flatten_uniform(pieces, self@.3 as nat, mm);
                assert(mm * self@.3 + self@.3 <= self@.1 * self@.3) by (nonlinear_arith)
                    requires
                        0 <= mm < self@.1,
                ;
                assert(out@.subrange(mm * self@.3, mm * self@.3 + self@.3)[k] == out@[mm * self@.3 + k]);
            }
        }
        out
    }

    /// The distance-table entry a code selects in each row: entry
    /// `m * K + code[m]`, one per subvector. The lookup never reads past the
    /// table: when some selected entry lies beyond it (a code that names a
    /// centroid the last rows do not have), the code is rejected as an
    /// invalid vector instead.
    pub fn select_entries<T: Copy>(&self, table: &Vec<T>, code: &PqCode) -> (r: Result<Vec<T>, QuantizeError>)
        requires
            code@.len() == self@.1,
        ensures
            match r {
                Ok(v) => entries_in_table(self@, code@, table@.len()) && v@ == selected_entries(self@, code@, table@),
                Err(e) => !entries_in_table(self@, code@, table@.len()) && e == QuantizeError::InvalidVector,
            },
    {
        proof {
            use_type_invariant(self);
        }
        let codes = code.as_bytes();
        let table_len = table.len();
        let n_centroids = self.n_centroids;
        let mut out: Vec<T> = Vec::new();
        let mut m: usize = 0;
        while m < self.n_subvectors
            invariant
                m <= self@.1,
                codes@ == code@,
                codes@.len() == self@.1,
                n_centroids == self@.3,
                table_len == table@.len(),
                layout_valid(self@),
                out@.len() == m,
                forall|i: int| 0 <= i < m ==> #[trigger] entry_index(self@, code@, i) < table@.len(),
                forall|i: int| 0 <= i < m ==> #[trigger] out@[i] == table@[entry_index(self@, code@, i)],
            decreases self@.1 - m,
        {
            let c = codes[m];
            proof {
                assert(codes@[m as int] == code@[m as int]);
                assert((m as int) * (n_centroids as int) <= 0xffff_ffff_ffff_ffff * 256) by (nonlinear_arith)
                    requires
                        m <= 0xffff_ffff_ffff_ffff,
                        n_centroids <= 256,
                ;
            }
            let idx: u128 = (m as u128) * (n_centroids as u128) + (c as u128);
            if idx >= table_len as u128 {
                proof {
                    assert(entry_index(self@, code@, m as int) >= table@.len());
                }
                return Err(QuantizeError::InvalidVector);
            }
            out.push(table[idx as usize]);
            m = m + 1;
        }
        proof {
            assert(out@ =~= selected_entries(self@, code@, table@));
        }
        Ok(out)
    }
}

/// The table entry code `codes` selects in row `m`: `m * K + codes[m]`.
pub open spec fn entry_index(l: (usize, usize, usize, usize), codes: Seq<u8>, m: int) -> int {
    m * l.3 + codes[m]
}

/// Product quantization supports the metrics that decompose into a sum
/// over subvectors: Euclidean, dot product and Manhattan.
pub open spec fn product_supports_spec(metric: Metric) -> bool {
    metric == Metric::Euclidean || metric == Metric::DotProduct || metric == Metric::Manhattan
}

/// Whether product quantization can score `metric`.
pub fn product_supports(metric: Metric) -> (r: bool)
    ensures
        r == product_supports_spec(metric),
{
    match metric {
        Metric::Euclidean | Metric::DotProduct | Metric::Manhattan => true,
        _ => false,
    }
}

/// The outcome of [`check_query_tables`]: the query checks, then an
/// unsupported metric.
pub open spec fn query_tables_outcome(trained_dim: Option<usize>, query: VectorShape, metric: Metric) -> Result<usize, QuantizeError> {
    match query_outcome(trained_dim, Scheme::Product, query) {
        Err(e) => Err(e),
        Ok(dim) => if !product_supports_spec(metric) {
            Err(QuantizeError::InvalidMetric)
        } else {
            Ok(dim)
        },
    }
}

/// Validate a request for distance tables (and so a PQ distance request):
/// trained, valid query of the trained dimension, supported metric.
pub fn check_query_tables(trained_dim: Option<usize>, query: &VectorShape, metric: Metric) -> (r: Result<usize, QuantizeError>)
    ensures
        r == query_tables_outcome(trained_dim, *query, metric),
{
    let dim = check_query(trained_dim, Scheme::Product, query)?;
    if !product_supports(metric) {
        return Err(QuantizeError::InvalidMetric);
    }
    Ok(dim)
}

/// The outcome of [`check_product_training`]: the training-set checks,
/// then the shape checks.
pub open spec fn product_training_outcome(config: (usize, usize, u64), vectors: Seq<VectorShape>) -> Result<usize, QuantizeError> {
    match training_set_outcome(vectors) {
        Err(e) => Err(e),
        Ok(dim) => shape_outcome(config.0, config.1, dim, vectors.len() as usize),
    }
}

/// Validate a product quantizer's training set against its configuration.
/// Returns the trained layout on success.
pub fn check_product_training(config: &PqConfig, vectors: &[VectorShape]) -> (r: Result<PqLayout, QuantizeError>)
    ensures
        match r {
            Ok(l) => product_training_outcome(config@, vectors@) == Ok::<usize, QuantizeError>(l@.2)
                && l@.0 == vectors@[0].len && l@.1 == config@.0 && l@.3 == config@.1
                && layout_valid(l@),
            Err(e) => product_training_outcome(config@, vectors@) == Err::<usize, QuantizeError>(e),
        },
{
    let dim = training_set(vectors)?;
    config.validate_shape(dim, vectors.len())
}

/// The outcome of [`check_codebook_sample`]: an empty sample, then the
/// first point of another length than `sub_dim`, then too few points.
pub open spec fn codebook_sample_outcome(sub_dim: usize, n_centroids: usize, lens: Seq<usize>) -> Result<(), QuantizeError> {
    if lens.len() == 0 {
        Err(QuantizeError::InvalidConfig { reason: ConfigReason::EmptyCodebookSample })
    } else if exists|i: int| 0 <= i < lens.len() && lens[i] != sub_dim {
        let i = choose|i: int|
            0 <= i < lens.len() && lens[i] != sub_dim && forall|j: int|
                0 <= j < i ==> #[trigger] lens[j] == sub_dim;
        Err(QuantizeError::DimensionMismatch { expected: sub_dim, found: lens[i] })
    } else if lens.len() < n_centroids {
        Err(QuantizeError::InvalidConfig { reason: ConfigReason::CodebookSampleTooSmall })
    } else {
        Ok(())
    }
}

/// The checks a codebook's k-means run makes on its sample before drawing:
/// non-empty, every point of length `sub_dim`, at least `K` points.
pub fn check_codebook_sample(sub_dim: usize, n_centroids: usize, lens: &[usize]) -> (r: Result<(), QuantizeError>)
    ensures
        r == codebook_sample_outcome(sub_dim, n_centroids, lens@),
{
    if lens.len() == 0 {
        return Err(QuantizeError::InvalidConfig { reason: ConfigReason::EmptyCodebookSample });
    }
    let mut i: usize = 0;
    while i < lens.len()
        invariant
            i <= lens@.len(),
            forall|j: int| 0 <= j < i ==> #[trigger] lens@[j] == sub_dim,
        decreases lens@.len() - i,
    {
        if lens[i] != sub_dim {
            proof {
                let p = |k: int|
                    0 <= k < lens@.len() && lens@[k] != sub_dim && forall|j: int|
                        0 <= j < k ==> #[trigger] lens@[j] == sub_dim;
                assert(p(i as int));
                let c = choose|k: int|
                    0 <= k < lens@.len() && lens@[k] != sub_dim && forall|j: int|
                        0 <= j < k ==> #[trigger] lens@[j] == sub_dim;
                assert(p(c));
                if c < i {
                    assert(lens@[c] == sub_dim);
                } else if c > i {
                    assert(lens@[i as int] == sub_dim);
                }
            }
            return Err(QuantizeError::DimensionMismatch { expected: sub_dim, found: lens[i] });
        }
        i = i + 1;
    }
    if lens.len() < n_centroids {
        return Err(QuantizeError::InvalidConfig { reason: ConfigReason::CodebookSampleTooSmall });
    }
    Ok(())
}

/// Flattening pieces of equal length `d` puts piece `m` at positions
/// `m * d .. m * d + d`.
#[verifier::spinoff_prover]
pub proof fn lemma_flatten_uniform<A>(s: Seq<Seq<A>>, d: nat, m: int)
    requires
        forall|i: int| 0 <= i < s.len() ==> (#[trigger] s[i]).len() == d,
        0 <= m < s.len(),
    ensures
        s.flatten().len() == s.len() * d,
        s.flatten().subrange(m * d, m * d + d) == s[m],
    decreases s.len(),
{
    lemma_flatten_uniform_len(s, d);
    let rest = s.drop_first();
    assert(s.flatten() == s.first() + rest.flatten());
    if m == 0 {
        assert(s.flatten().subrange(0, d as int) =~= s.first());
    } else {
        assert forall|i: int| 0 <= i < rest.len() implies (#[trigger] rest[i]).len() == d by {
            assert(rest[i] == s[i + 1]);
        }
        lemma_flatten_uniform(rest, d, m - 1);
        assert(m * d == d + (m - 1) * d) by (nonlinear_arith);
        assert((m - 1) * d + d <= rest.len() * d) by (nonlinear_arith)
            requires
                m - 1 < rest.len(),
        ;
        assert(s.first().len() == d);
        assert(s.flatten().subrange(m * d, m * d + d) =~= rest.flatten().subrange(
            (m - 1) * d,
            (m - 1) * d + d,
        ));
        assert(rest[m - 1] == s[m]);
    }
}

proof fn lemma_flatten_uniform_len<A>(s: Seq<Seq<A>>, d: nat)
    requires
        forall|i: int| 0 <= i < s.len() ==> (#[trigger] s[i]).len() == d,
    ensures
        s.flatten().len() == s.len() * d,
    decreases s.len(),
{
    if s.len() > 0 {
        let rest = s.drop_first();
        assert forall|i: int| 0 <= i < rest.len() implies (#[trigger] rest[i]).len() == d by {
            assert(rest[i] == s[i + 1]);
        }
        lemma_flatten_uniform_len(rest, d);
        assert(s.len() * d == d + (s.len() - 1) * d) by (nonlinear_arith);
    }
}

/// Decoding a code places, at subvector `m`, the centroid the code names
/// for that subvector, and a distance table scores that same centroid: the
/// entry a code selects in row `m` lies in row `m`, at column `code[m]`.
pub proof fn lemma_decoded_subvector<T>(
    l: (usize, usize, usize, usize),
    codebooks: Seq<Vec<Vec<T>>>,
    codes: Seq<u8>,
    m: int,
)
    requires
        layout_valid(l),
        codebooks_shaped(l, codebooks),
        codes.len() == l.1,
        indices_below(codes, l.3),
        0 <= m < l.1,
    ensures
        selected_centroids(codebooks, codes).len() == l.0,
        selected_centroids(codebooks, codes).subrange(m * l.2, m * l.2 + l.2)
            == codebooks[m]@[codes[m] as int]@,
        m * l.3 <= entry_index(l, codes, m) < (m + 1) * l.3,
{
    let pieces = Seq::new(codes.len(), |i: int| codebooks[i]@[codes[i] as int]@);
    assert forall|i: int| 0 <= i < pieces.len() implies (#[trigger] pieces[i]).len() == l.2 by {
        assert(codes[i] < l.3);
    }
    lemma_flatten_uniform(pieces, l.2 as nat, m);
    assert(codes[m] < l.3);
    assert((m + 1) * l.3 == m * l.3 + l.3) by (nonlinear_arith);
}

/// Scoring a code against an assembled table reads, in each row `m`, the
/// entry the row holds for centroid `code[m]`: when every index is below
/// `K`, every selected entry lies inside the table and is row `m`'s entry
/// for that centroid.
pub proof fn lemma_assembled_lookup<T>(
    l: (usize, usize, usize, usize),
    rows: Seq<Vec<T>>,
    codes: Seq<u8>,
)
    requires
        layout_valid(l),
        rows.len() == l.1,
        forall|m: int| 0 <= m < l.1 ==> (#[trigger] rows[m])@.len() == l.3,
        codes.len() == l.1,
        indices_below(codes, l.3),
    ensures
        entries_in_table(l, codes, assembled_rows(rows).len()),
        forall|m: int|
            0 <= m < l.1 ==> #[trigger] selected_entries(l, codes, assembled_rows(rows))[m]
                == rows[m]@[codes[m] as int],
{
    let pieces = Seq::new(rows.len(), |i: int| rows[i]@);
    assert forall|i: int| 0 <= i < pieces.len() implies (#[trigger] pieces[i]).len() == l.3 by {
        assert(pieces[i] == rows[i]@);
    }
    lemma_flatten_uniform(pieces, l.3 as nat, 0);
    let table = assembled_rows(rows);
    assert forall|m: int| 0 <= m < l.1 implies #[trigger] entry_index(l, codes, m) < table.len()
        && table[entry_index(l, codes, m)] == rows[m]@[codes[m] as int] by {
        lemma_flatten_uniform(pieces, l.3 as nat, m);
        assert(codes[m] < l.3);
        assert(m * l.3 + l.3 <= l.1 * l.3) by (nonlinear_arith)
            requires
                0 <= m < l.1,
        ;
        assert(table.subrange(m * l.3, m * l.3 + l.3)[codes[m] as int] == table[m * l.3 + codes[m]]);
        assert(pieces[m] == rows[m]@);
    }
}

/// Product quantization scores exactly Euclidean, dot-product and
/// Manhattan distance: for a trained quantizer and a valid query of the
/// trained dimension, those three metrics are accepted with that dimension
/// and every other metric is rejected as invalid.
pub proof fn lemma_query_tables_checks(trained_dim: Option<usize>, query: VectorShape, metric: Metric)
    ensures
        forall|d: usize|
            trained_dim == Some(d) && query.len > 0 && query.finite && query.len == d && (metric
                == Metric::Euclidean || metric == Metric::DotProduct || metric == Metric::Manhattan)
                ==> #[trigger] query_tables_outcome(trained_dim, query, metric) == Ok::<usize, QuantizeError>(d),
        forall|d: usize|
            trained_dim == Some(d) && query.len > 0 && query.finite && query.len == d && (metric
                == Metric::Cosine || metric == Metric::Hamming || metric == Metric::Unrecognized)
                ==> #[trigger] query_tables_outcome(trained_dim, query, metric) == Err::<usize, QuantizeError>(
                QuantizeError::InvalidMetric,
            ),
        product_supports_spec(metric) <==> (metric == Metric::Euclidean || metric == Metric::DotProduct
            || metric == Metric::Manhattan),
{
}

/// A shape with at least one subvector, between 1 and 256 centroids, a
/// positive dimension divisible by the subvector count and at least as many
/// training vectors as centroids is accepted, with subvector length
/// `dim / M`; each configuration error arises only when its condition
/// fails.
pub proof fn lemma_shape_checks(n_subvectors: usize, n_centroids: usize, dim: usize, training_count: usize)
    ensures
        n_subvectors >= 1 && 1 <= n_centroids <= 256 && dim > 0 && dim % n_subvectors == 0
            && training_count >= n_centroids ==> shape_outcome(n_subvectors, n_centroids, dim, training_count)
            == Ok::<usize, QuantizeError>((dim / n_subvectors) as usize),
        shape_outcome(n_subvectors, n_centroids, dim, training_count) == Err::<usize, QuantizeError>(
            QuantizeError::InvalidConfig { reason: ConfigReason::ZeroSubvectors },
        ) <==> n_subvectors == 0,
        shape_outcome(n_subvectors, n_centroids, dim, training_count) == Err::<usize, QuantizeError>(
            QuantizeError::InvalidConfig { reason: ConfigReason::ZeroCentroids },
        ) ==> n_centroids == 0,
        shape_outcome(n_subvectors, n_centroids, dim, training_count) == Err::<usize, QuantizeError>(
            QuantizeError::InvalidConfig { reason: ConfigReason::TooManyCentroids },
        ) ==> n_centroids > 256,
        shape_outcome(n_subvectors, n_centroids, dim, training_count) == Err::<usize, QuantizeError>(
            QuantizeError::InvalidConfig { reason: ConfigReason::DimNotMultipleOfSubvectors },
        ) ==> dim == 0 || dim % n_subvectors != 0,
        shape_outcome(n_subvectors, n_centroids, dim, training_count) == Err::<usize, QuantizeError>(
            QuantizeError::InvalidConfig { reason: ConfigReason::TooFewTrainingVectors },
        ) ==> training_count < n_centroids,
        forall|sub: usize|
            shape_outcome(n_subvectors, n_centroids, dim, training_count) == Ok::<usize, QuantizeError>(sub)
                ==> n_subvectors >= 1 && 1 <= n_centroids <= 256 && dim > 0 && dim == n_subvectors * sub
                && training_count >= n_centroids,
{
    if n_subvectors >= 1 && dim > 0 && dim % n_subvectors == 0 {
        vstd::arithmetic::div_mod::lemma_fundamental_div_mod(dim as int, n_subvectors as int);
    }
}

/// A code from the quantizer's own layout, of its dimension, with `M`
/// bytes each below `K`, is accepted for decoding, for every `K` from 1 to
/// 256; a code of that shape naming a centroid at or beyond `K` is rejected
/// as invalid; and a code of the layout's dimension and subvector count
/// passes the scoring shape check.
pub proof fn lemma_code_checks_accept_own_codes(l: (usize, usize, usize, usize), codes: Seq<u8>)
    ensures
        (forall|m: int| 0 <= m < codes.len() ==> #[trigger] codes[m] < l.3) ==> indices_outcome(l, codes)
            == Ok::<(), QuantizeError>(()),
        (exists|m: int| 0 <= m < codes.len() && #[trigger] codes[m] >= l.3) ==> indices_outcome(l, codes)
            == Err::<(), QuantizeError>(QuantizeError::InvalidVector),
        codes.len() == l.1 && (forall|m: int| 0 <= m < codes.len() ==> #[trigger] codes[m] < l.3)
            ==> decode_check_outcome(l, l.0, codes) == Ok::<(), QuantizeError>(()),
        codes.len() == l.1 ==> scoring_check_outcome(l, l.0, codes.len()) == Ok::<(), QuantizeError>(()),
        scoring_check_outcome(l, l.0, l.1 as nat) == Ok::<(), QuantizeError>(()),
{
}

/// A table of at least `M * K` entries holds every entry a code of `M`
/// indices below `K` selects: `m * K + code[m]` lies in row `m`.
pub proof fn lemma_own_codes_stay_in_table(l: (usize, usize, usize, usize), codes: Seq<u8>, table_len: nat)
    requires
        codes.len() == l.1,
        forall|m: int| 0 <= m < codes.len() ==> #[trigger] codes[m] < l.3,
        table_len >= l.1 * l.3,
    ensures
        entries_in_table(l, codes, table_len),
        forall|m: int| 0 <= m < l.1 ==> #[trigger] entry_index(l, codes, m) == m * l.3 + codes[m],
{
    assert forall|m: int| 0 <= m < l.1 implies #[trigger] entry_index(l, codes, m) < table_len by {
        assert(codes[m] < l.3);
        assert(m * l.3 + l.3 <= l.1 * l.3) by (nonlinear_arith)
            requires
                0 <= m < l.1,
        ;
    }
}

/// A codebook sample that is non-empty, whose points all have length
/// `sub_dim` and that holds at least `K` points is accepted; the empty-sample
/// and too-small errors arise only when their conditions hold.
pub proof fn lemma_codebook_sample_checks(sub_dim: usize, n_centroids: usize, lens: Seq<usize>)
    ensures
        lens.len() > 0 && lens.len() >= n_centroids && (forall|i: int|
            0 <= i < lens.len() ==> #[trigger] lens[i] == sub_dim) ==> codebook_sample_outcome(
            sub_dim,
            n_centroids,
            lens,
        ) == Ok::<(), QuantizeError>(()),
        codebook_sample_outcome(sub_dim, n_centroids, lens) == Err::<(), QuantizeError>(
            QuantizeError::InvalidConfig { reason: ConfigReason::EmptyCodebookSample },
        ) <==> lens.len() == 0,
        codebook_sample_outcome(sub_dim, n_centroids, lens) == Err::<(), QuantizeError>(
            QuantizeError::InvalidConfig { reason: ConfigReason::CodebookSampleTooSmall },
        ) ==> 0 < lens.len() < n_centroids,
{
}

/// A product quantizer trains on any non-empty set of valid vectors of one
/// length `dim` when its shape fits: `M >= 1`, `1 <= K <= 256`, `dim` a
/// positive multiple of `M` and at least `K` vectors; the subvector length
/// is then `dim / M`.
pub proof fn lemma_product_training_accepts(config: (usize, usize, u64), s: Seq<VectorShape>)
    requires
        s.len() > 0,
        forall|i: int| 0 <= i < s.len() ==> (#[trigger] s[i]).len > 0 && s[i].finite && s[i].len == s[0].len,
        config.0 >= 1,
        1 <= config.1 <= 256,
        s[0].len % config.0 == 0,
        s.len() >= config.1,
        s.len() <= usize::MAX,
    ensures
        product_training_outcome(config, s) == Ok::<usize, QuantizeError>((s[0].len / config.0) as usize),
{
    crate::validate::lemma_training_set_accepts_consistent_sets(s);
    lemma_shape_checks(config.0, config.1, s[0].len, s.len() as usize);
}

proof fn lemma_first_length_mismatch_from(sub_dim: usize, lens: Seq<usize>, j: int) -> (i: int)
    requires
        0 <= j <= lens.len(),
        forall|k: int| 0 <= k < j ==> #[trigger] lens[k] == sub_dim,
        exists|k: int| j <= k < lens.len() && #[trigger] lens[k] != sub_dim,
    ensures
        0 <= i < lens.len(),
        lens[i] != sub_dim,
        forall|k: int| 0 <= k < i ==> #[trigger] lens[k] == sub_dim,
    decreases lens.len() - j,
{
    if lens[j] != sub_dim {
        j
    } else {
        assert forall|k: int| 0 <= k < j + 1 implies #[trigger] lens[k] == sub_dim by {
            if k == j {
            }
        }
        lemma_first_length_mismatch_from(sub_dim, lens, j + 1)
    }
}

/// A non-empty codebook sample with a point of another length than
/// `sub_dim` is rejected for its first such point `i`: every point before
/// it has length `sub_dim`, and the error reports `sub_dim` and point `i`'s
/// length.
pub proof fn lemma_codebook_sample_names_first_mismatch(sub_dim: usize, n_centroids: usize, lens: Seq<usize>) -> (i: int)
    requires
        lens.len() > 0,
        exists|k: int| 0 <= k < lens.len() && #[trigger] lens[k] != sub_dim,
    ensures
        0 <= i < lens.len(),
        lens[i] != sub_dim,
        forall|k: int| 0 <= k < i ==> #[trigger] lens[k] == sub_dim,
        codebook_sample_outcome(sub_dim, n_centroids, lens) == Err::<(), QuantizeError>(
            QuantizeError::DimensionMismatch { expected: sub_dim, found: lens[i] },
        ),
{
    let i = lemma_first_length_mismatch_from(sub_dim, lens, 0);
    let p = |k: int|
        0 <= k < lens.len() && lens[k] != sub_dim && forall|j: int|
            0 <= j < k ==> #[trigger] lens[j] == sub_dim;
    assert(p(i));
    let c = choose|k: int|
        0 <= k < lens.len() && lens[k] != sub_dim && forall|j: int|
            0 <= j < k ==> #[trigger] lens[j] == sub_dim;
    assert(p(c));
    if c < i {
        assert(lens[c] == sub_dim);
    } else if c > i {
        assert(lens[i] == sub_dim);
    }
    i
}

} // verus!




