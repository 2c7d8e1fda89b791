//! Hamming distance between packed binary codes, and the checks a binary
//! quantizer makes before comparing a query with a stored code.
//!
//! Binary quantization supports the Hamming metric only: a one-bit code
//! carries no magnitude, so any other metric is rejected.

use vstd::prelude::*;

use crate::code::{bit_of, packed_bit, word_count, BqCode};
use crate::error::{QuantizeError, Scheme};
use crate::metric::Metric;
use crate::validate::{check_query_and_code, query_and_code_outcome, VectorShape};

verus! {

/// The number of set bits of `x`.
pub open spec fn popcount(x: u64) -> nat
    decreases x,
{
    if x == 0 {
        0
    } else {
        (x % 2) as nat + popcount(x / 2)
    }
}

/// The sum over the first `n` word pairs of the number of differing bits.
pub open spec fn word_differences(a: Seq<u64>, b: Seq<u64>, n: nat) -> nat
    decreases n,
{
    if n == 0 {
        0
    } else {
        word_differences(a, b, (n - 1) as nat) + popcount(a[n - 1] ^ b[n - 1])
    }
}

/// `v` clamped to the range of `u32`.
pub open spec fn saturate_u32(v: nat) -> u32 {
    if v > u32::MAX {
        u32::MAX
    } else {
        v as u32
    }
}

/// The Hamming distance between two packed word sequences, compared up to
/// the shorter one and saturated at `u32::MAX`.
pub open spec fn hamming_spec(a: Seq<u64>, b: Seq<u64>) -> u32 {
    let n = if a.len() <= b.len() {
        a.len()
    } else {
        b.len()
    };
    saturate_u32(word_differences(a, b, n))
}

/// A word has at most 64 set bits.
pub proof fn lemma_popcount_bound(x: u64)
    ensures
        popcount(x) <= 64,
{
    vstd::arithmetic::power2::lemma2_to64_rest();
    lemma_popcount_below(x, 64);
}

proof fn lemma_popcount_below(x: u64, n: nat)
    requires
        n <= 64,
        x as int <= vstd::arithmetic::power2::pow2(n) - 1,
    ensures
        popcount(x) <= n,
    decreases n,
{
    if x != 0 {
        if n == 0 {
            vstd::arithmetic::power2::lemma2_to64();
        } else {
            vstd::arithmetic::power2::lemma_pow2_unfold(n);
            lemma_popcount_below((x / 2) as u64, (n - 1) as nat);
        }
    }
}

/// Count the set bits of a word.
pub fn popcount_u64(x: u64) -> (r: u32)
    ensures
        r == popcount(x),
        r <= 64,
{
    proof {
        lemma_popcount_bound(x);
    }
    let mut y = x;
    let mut c: u32 = 0;
    while y != 0
        invariant
            c + popcount(y) == popcount(x),
            popcount(x) <= 64,
        decreases y,
    {
        let low = y & 1u64;
        assert(low == y % 2 && (y >> 1u64) == y / 2) by (bit_vector)
            requires
                low == y & 1u64,
        ;
        c = c + (low as u32);
        y = y >> 1u64;
    }
    c
}

/// The Hamming distance between two packed word sequences: the number of
/// differing bits of the word pairs up to the shorter sequence, saturated
/// at `u32::MAX`.
pub fn hamming_words(a: &[u64], b: &[u64]) -> (r: u32)
    ensures
        r == hamming_spec(a@, b@),
{
    let n = if a.len() <= b.len() {
        a.len()
    } else {
        b.len()
    };
    let mut diff: u32 = 0;
    let mut w: usize = 0;
    while w < n
        invariant
            w <= n,
            n <= a@.len(),
            n <= b@.len(),
            n == a@.len() || n == b@.len(),
            diff == saturate_u32(word_differences(a@, b@, w as nat)),
        decreases n - w,
    {
        let p = popcount_u64(a[w] ^ b[w]);
        diff = diff.saturating_add(p);
        w = w + 1;
    }
    diff
}

impl BqCode {
    /// The Hamming distance between the packed words of two codes.
    pub fn hamming(&self, other: &BqCode) -> (r: u32)
        ensures
            r == hamming_spec(self.words_view(), other.words_view()),
    {
        hamming_words(self.as_words(), other.as_words())
    }
}

/// The outcome of [`check_binary_distance`]: the query and code checks,
/// then any metric other than Hamming is rejected.
pub open spec fn binary_distance_outcome(
    trained_dim: Option<usize>,
    query: VectorShape,
    code_dim: usize,
    metric: Metric,
) -> Result<usize, QuantizeError> {
    match query_and_code_outcome(trained_dim, Scheme::Binary, query, code_dim) {
        Err(e) => Err(e),
        Ok(dim) => if metric != Metric::Hamming {
            Err(QuantizeError::InvalidMetric)
        } else {
            Ok(dim)
        },
    }
}

/// Validate a binary quantizer's distance request before the query is
/// binarized. Returns the trained dimension on success.
pub fn check_binary_distance(
    trained_dim: Option<usize>,
    query: &VectorShape,
    code_dim: usize,
    metric: Metric,
) -> (r: Result<usize, QuantizeError>)
    ensures
        r == binary_distance_outcome(trained_dim, *query, code_dim, metric),
{
    let dim = check_query_and_code(trained_dim, Scheme::Binary, query, code_dim)?;
    match metric {
        Metric::Hamming => Ok(dim),
        _ => Err(QuantizeError::InvalidMetric),
    }
}

/// The number of positions `i` in `lo..lo + n` at which `x[i] != y[i]`.
pub open spec fn differing_bits(x: Seq<bool>, y: Seq<bool>, lo: int, n: nat) -> nat
    decreases n,
{
    if n == 0 {
        0
    } else {
        (if x[lo] != y[lo] {
            1nat
        } else {
            0nat
        }) + differing_bits(x, y, lo + 1, (n - 1) as nat)
    }
}

/// The number of set bits among the low `n` bits of `x`.
pub open spec fn low_bits_set(x: u64, n: nat) -> nat
    decreases n,
{
    if n == 0 {
        0
    } else {
        (if bit_of(x, 0) {
            1nat
        } else {
            0nat
        }) + low_bits_set(x >> 1u64, (n - 1) as nat)
    }
}

/// The number of positions `p` in `lo..lo + n` at which the packed bits of
/// `a` and `b` differ.
pub open spec fn packed_differences(a: Seq<u64>, b: Seq<u64>, lo: int, n: nat) -> nat
    decreases n,
{
    if n == 0 {
        0
    } else {
        (if packed_bit(a, lo) != packed_bit(b, lo) {
            1nat
        } else {
            0nat
        }) + packed_differences(a, b, lo + 1, (n - 1) as nat)
    }
}

proof fn lemma_popcount_low_bits(x: u64, n: nat)
    requires
        n <= 64,
        x as int <= vstd::arithmetic::power2::pow2(n) - 1,
    ensures
        popcount(x) == low_bits_set(x, n),
    decreases n,
{
    if n == 0 {
        vstd::arithmetic::power2::lemma2_to64();
    } else {
        vstd::arithmetic::power2::lemma_pow2_unfold(n);
        assert((x >> 1u64) == x / 2 && (bit_of(x, 0) <==> x % 2 == 1)) by (bit_vector);
        lemma_popcount_low_bits((x >> 1u64), (n - 1) as nat);
    }
}

/// Bit `j` of an exclusive or is set exactly where the operands differ.
pub proof fn lemma_xor_bit(a: u64, b: u64, j: u64)
    requires
        j < 64,
    ensures
        bit_of(a ^ b, j) == (bit_of(a, j) != bit_of(b, j)),
{
    assert((((a ^ b) >> j) & 1u64 == 1u64) == (((a >> j) & 1u64 == 1u64) != ((b >> j) & 1u64
        == 1u64))) by (bit_vector)
        requires
            j < 64,
    ;
}

proof fn lemma_block_differences(a: Seq<u64>, b: Seq<u64>, w: int, j: nat, n: nat)
    requires
        0 <= w < a.len(),
        w < b.len(),
        j + n <= 64,
    ensures
        packed_differences(a, b, 64 * w + j, n) == low_bits_set((a[w] ^ b[w]) >> (j as u64), n),
    decreases n,
{
    if n > 0 {
        let x = a[w] ^ b[w];
        let jj = j as u64;
        assert((64 * w + j) / 64 == w && (64 * w + j) % 64 == j);
        lemma_xor_bit(a[w], b[w], jj);
        assert(bit_of(x >> jj, 0) == bit_of(x, jj) && (x >> jj) >> 1u64 == x >> ((jj + 1) as u64))
            by (bit_vector)
            requires
                jj < 64,
        ;
        lemma_block_differences(a, b, w, j + 1, (n - 1) as nat);
    }
}

proof fn lemma_packed_split(a: Seq<u64>, b: Seq<u64>, lo: int, n1: nat, n2: nat)
    ensures
        packed_differences(a, b, lo, n1 + n2) == packed_differences(a, b, lo, n1)
            + packed_differences(a, b, lo + n1, n2),
    decreases n1,
{
    if n1 > 0 {
        lemma_packed_split(a, b, lo + 1, (n1 - 1) as nat, n2);
        assert((n1 + n2 - 1) as nat == (n1 - 1) as nat + n2);
    }
}

proof fn lemma_words_as_packed(a: Seq<u64>, b: Seq<u64>, w: nat)
    requires
        w <= a.len(),
        w <= b.len(),
    ensures
        word_differences(a, b, w) == packed_differences(a, b, 0, 64 * w),
    decreases w,
{
    if w > 0 {
        lemma_words_as_packed(a, b, (w - 1) as nat);
        lemma_packed_split(a, b, 0, 64 * (w - 1) as nat, 64);
        assert(64 * (w - 1) as nat + 64 == 64 * w);
        lemma_block_differences(a, b, w - 1, 0, 64);
        let x = a[w - 1] ^ b[w - 1];
        assert(x >> 0u64 == x) by (bit_vector);
        vstd::arithmetic::power2::lemma2_to64_rest();
        lemma_popcount_low_bits(x, 64);
    }
}

proof fn lemma_padding_differences(a: Seq<u64>, b: Seq<u64>, lo: int, n: nat)
    requires
        forall|p: int| lo <= p < lo + n ==> !#[trigger] packed_bit(a, p),
        forall|p: int| lo <= p < lo + n ==> !#[trigger] packed_bit(b, p),
    ensures
        packed_differences(a, b, lo, n) == 0,
    decreases n,
{
    if n > 0 {
        assert(!packed_bit(a, lo) && !packed_bit(b, lo));
        lemma_padding_differences(a, b, lo + 1, (n - 1) as nat);
    }
}

proof fn lemma_view_differences(c: BqCode, d: BqCode, lo: int, n: nat)
    requires
        c.layout_holds(),
        d.layout_holds(),
        c@.len() == d@.len(),
        0 <= lo,
        lo + n <= c@.len(),
    ensures
        differing_bits(c@, d@, lo, n) == packed_differences(c.words_view(), d.words_view(), lo, n),
    decreases n,
{
    if n > 0 {
        assert(c@[lo] == packed_bit(c.words_view(), lo));
        assert(d@[lo] == packed_bit(d.words_view(), lo));
        lemma_view_differences(c, d, lo + 1, (n - 1) as nat);
    }
}

/// The Hamming distance between two binary codes of the same dimension is
/// the number of dimensions whose bits differ (saturated at `u32::MAX`):
/// the zero padding of the trailing word never contributes.
pub proof fn lemma_hamming_counts_differing_bits(c: BqCode, d: BqCode)
    requires
        c.layout_holds(),
        d.layout_holds(),
        c@.len() == d@.len(),
    ensures
        hamming_spec(c.words_view(), d.words_view()) == saturate_u32(
            differing_bits(c@, d@, 0, c@.len()),
        ),
{
    let a = c.words_view();
    let b = d.words_view();
    let dim = c@.len();
    let w = word_count(dim);
    assert(a.len() == w && b.len() == w);
    lemma_words_as_packed(a, b, w);
    assert(64 * w >= dim);
    lemma_packed_split(a, b, 0, dim, (64 * w - dim) as nat);
    lemma_padding_differences(a, b, dim as int, (64 * w - dim) as nat);
    lemma_view_differences(c, d, 0, dim);
}

/// A code is at distance zero from itself.
pub proof fn lemma_hamming_self_zero(a: Seq<u64>)
    ensures
        hamming_spec(a, a) == 0,
{
    lemma_word_differences_self(a, a.len());
}

proof fn lemma_word_differences_self(a: Seq<u64>, n: nat)
    ensures
        word_differences(a, a, n) == 0,
    decreases n,
{
    if n > 0 {
        let x = a[n - 1];
        assert(x ^ x == 0) by (bit_vector);
        lemma_word_differences_self(a, (n - 1) as nat);
    }
}

/// The Hamming distance does not depend on the order of its arguments.
pub proof fn lemma_hamming_symmetric(a: Seq<u64>, b: Seq<u64>)
    ensures
        hamming_spec(a, b) == hamming_spec(b, a),
{
    let n = if a.len() <= b.len() {
        a.len()
    } else {
        b.len()
    };
    lemma_word_differences_symmetric(a, b, n);
}

proof fn lemma_word_differences_symmetric(a: Seq<u64>, b: Seq<u64>, n: nat)
    ensures
        word_differences(a, b, n) == word_differences(b, a, n),
    decreases n,
{
    if n > 0 {
        let x = a[n - 1];
        let y = b[n - 1];
        assert(x ^ y == y ^ x) by (bit_vector);
        lemma_word_differences_symmetric(a, b, (n - 1) as nat);
    }
}

/// Binary distance accepts a valid query and a code, both of the trained
/// dimension, under the Hamming metric, whatever that dimension is; with
/// the same inputs every other metric is rejected as invalid; and any
/// acceptance means the query and code have the trained dimension and the
/// metric is Hamming.
pub proof fn lemma_binary_distance_checks(
    trained_dim: Option<usize>,
    query: VectorShape,
    code_dim: usize,
    metric: Metric,
)
    ensures
        forall|d: usize|
            trained_dim == Some(d) && query.len > 0 && query.finite && query.len == d && code_dim == d
                ==> #[trigger] binary_distance_outcome(trained_dim, query, code_dim, Metric::Hamming)
                == Ok::<usize, QuantizeError>(d),
        forall|d: usize|
            trained_dim == Some(d) && query.len > 0 && query.finite && query.len == d && code_dim == d
                && metric != Metric::Hamming ==> #[trigger] binary_distance_outcome(
                trained_dim,
                query,
                code_dim,
                metric,
            ) == Err::<usize, QuantizeError>(QuantizeError::InvalidMetric),
        forall|d: usize|
            binary_distance_outcome(trained_dim, query, code_dim, metric) == Ok::<usize, QuantizeError>(d)
                ==> metric == Metric::Hamming && trained_dim == Some(d) && query.len == d && code_dim
                == d && query.len > 0 && query.finite,
{
}

/// The differing bits of `n` word pairs number at most `64 * n`.
pub proof fn lemma_word_differences_bound(a: Seq<u64>, b: Seq<u64>, n: nat)
    requires
        n <= a.len(),
        n <= b.len(),
    ensures
        word_differences(a, b, n) <= 64 * n,
    decreases n,
{
    if n > 0 {
        lemma_word_differences_bound(a, b, (n - 1) as nat);
        lemma_popcount_bound(a[n - 1] ^ b[n - 1]);
    }
}

/// The Hamming distance of two packed word sequences counts the differing
/// bits of the word pairs up to the shorter sequence: exactly, while that
/// count fits a `u32`, and `u32::MAX` beyond; it never exceeds 64 bits per
/// compared word.
pub proof fn lemma_hamming_counts_word_differences(a: Seq<u64>, b: Seq<u64>)
    ensures
        ({
            let n = if a.len() <= b.len() {
                a.len()
            } else {
                b.len()
            };
            &&& word_differences(a, b, n) <= u32::MAX ==> hamming_spec(a, b) as nat == word_differences(a, b, n)
            &&& word_differences(a, b, n) > u32::MAX ==> hamming_spec(a, b) == u32::MAX
            &&& hamming_spec(a, b) <= word_differences(a, b, n)
            &&& hamming_spec(a, b) <= 64 * n
        }),
{
    let n = if a.len() <= b.len() {
        a.len()
    } else {
        b.len()
    };
    lemma_word_differences_bound(a, b, n);
}

} // verus!


