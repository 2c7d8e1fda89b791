//! Owned, immutable code types: [`Sq8Code`], [`BqCode`], and [`PqCode`].
//!
//! Each is a thin newtype over integer storage with no mutators. A
//! [`BqCode`] keeps the unused high bits of its trailing word at zero and a
//! [`PqCode`] holds exactly one byte per subvector; both facts are type
//! invariants that every constructor establishes.

use vstd::prelude::*;

verus! {

/// Number of bits packed into one word of a [`BqCode`].
pub const BITS_PER_WORD: usize = 64;

/// A scalar-quantized (SQ8) code: one `u8` per dimension.
#[derive(Debug, Clone, PartialEq, Eq)]
pub struct Sq8Code {
    bytes: Vec<u8>,
}

impl View for Sq8Code {
    type V = Seq<u8>;

    closed spec fn view(&self) -> Seq<u8> {
        self.bytes@
    }
}

impl Sq8Code {
    /// Wrap the code bytes a scalar quantizer produced, one per dimension.
    pub fn from_bytes(bytes: Vec<u8>) -> (r: Self)
        ensures
            r@ == bytes@,
    {
        Sq8Code { bytes }
    }

    /// Returns the dimension of the encoded vector (one byte per dimension).
    pub fn len(&self) -> (r: usize)
        ensures
            r == self@.len(),
    {
        self.bytes.len()
    }

    /// Returns `true` if the code holds no bytes.
    pub fn is_empty(&self) -> (r: bool)
        ensures
            r == (self@.len() == 0),
    {
        self.bytes.len() == 0
    }

    /// Borrow the raw `u8` code bytes.
    pub fn as_bytes(&self) -> (r: &[u8])
        ensures
            r@ == self@,
    {
        self.bytes.as_slice()
    }
}

/// The number of words needed to hold `dim` bits.
pub open spec fn word_count(dim: nat) -> nat {
    (dim + 63) / 64
}

/// Bit `j` (counting from the least significant) of `w`.
pub open spec fn bit_of(w: u64, j: u64) -> bool {
    (w >> j) & 1u64 == 1u64
}

/// Bit `i` of a packed word sequence: bit `i % 64` of word `i / 64`.
pub open spec fn packed_bit(words: Seq<u64>, i: int) -> bool {
    bit_of(words[i / 64], (i % 64) as u64)
}

/// A binary-quantized (BQ) code: one bit per dimension, packed into `u64`
/// words. When the dimension is not a multiple of 64 the trailing word has
/// unused high bits; those bits are always `0`.
#[derive(Debug, PartialEq, Eq)]
pub struct BqCode {
    words: Vec<u64>,
    dim: usize,
}

impl Clone for BqCode {
    fn clone(&self) -> (r: Self)
        ensures
            r@ == self@,
            r.words_view() == self.words_view(),
    {
        proof {
            use_type_invariant(self);
        }
        BqCode { words: self.words.clone(), dim: self.dim }
    }
}

impl View for BqCode {
    type V = Seq<bool>;

    /// The bits of the code, one per dimension.
    closed spec fn view(&self) -> Seq<bool> {
        Seq::new(self.dim as nat, |i: int| packed_bit(self.words@, i))
    }
}

impl BqCode {
    /// The packed words of the code.
    pub closed spec fn words_view(&self) -> Seq<u64> {
        self.words@
    }

    /// The packed words hold one word per started block of 64 bits, bit `i`
    /// of the code is packed bit `i` of the words, and every packed bit
    /// beyond the dimension is zero.
    pub open spec fn layout_holds(&self) -> bool {
        &&& self.words_view().len() == word_count(self@.len())
        &&& forall|i: int|
            0 <= i < self@.len() ==> #[trigger] self@[i] == packed_bit(self.words_view(), i)
        &&& forall|i: int|
            self@.len() <= i < self.words_view().len() * 64 ==> !#[trigger] packed_bit(
                self.words_view(),
                i,
            )
    }

    #[verifier::type_invariant]
    closed spec fn well_formed(self) -> bool {
        &&& self.words@.len() == word_count(self.dim as nat)
        &&& forall|i: int|
            self.dim <= i < self.words@.len() * 64 ==> !#[trigger] packed_bit(self.words@, i)
    }

    /// Pack one bit per dimension into `u64` words: bit `i` of the code is
    /// `bits[i]`, and the trailing word's unused high bits are zero.
    pub fn from_bits(bits: &Vec<bool>) -> (r: Self)
        ensures
            r@ == bits@,
            r.layout_holds(),
    {
        let dim = bits.len();
        let n_words = dim / BITS_PER_WORD + if dim % BITS_PER_WORD == 0 {
            0
        } else {
            1
        };
        let mut words: Vec<u64> = Vec::new();
        let mut w: usize = 0;
        while w < n_words
            invariant
                w <= n_words,
                n_words == word_count(dim as nat),
                words@.len() == w,
                forall|k: int| 0 <= k < w ==> words@[k] == 0u64,
            decreases n_words - w,
        {
            words.push(0u64);
            w = w + 1;
        }
        proof {
            assert forall|p: int| 0 <= p < n_words * 64 implies !#[trigger] packed_bit(words@, p) by {
                lemma_bit_of_zero((p % 64) as u64);
            }
        }
        let mut i: usize = 0;
        while i < dim
            invariant
                i <= dim,
                dim == bits@.len(),
                n_words == word_count(dim as nat),
                words@.len() == n_words,
                forall|p: int|
                    0 <= p < n_words * 64 ==> #[trigger] packed_bit(words@, p) == (p < i
                        && bits@[p]),
            decreases dim - i,
        {
            if bits[i] {
                let wi = i / BITS_PER_WORD;
                let k = i % BITS_PER_WORD;
                let old_word = words[wi];
                let ghost before = words@;
                let new_word = old_word | (1u64 << (k as u64));
                words.set(wi, new_word);
                proof {
                    assert forall|p: int| 0 <= p < n_words * 64 implies #[trigger] packed_bit(
                        words@,
                        p,
                    ) == (p < i + 1 && bits@[p]) by {
                        if p / 64 == wi as int {
                            lemma_set_bit(old_word, k as u64, (p % 64) as u64);
                            assert(packed_bit(before, p) == (p < i && bits@[p]));
                        } else {
                            assert(words@[p / 64] == before[p / 64]);
                            assert(packed_bit(before, p) == (p < i && bits@[p]));
                        }
                    }
                }
            }
            i = i + 1;
        }
        let r = BqCode { words, dim };
        proof {
            assert(r@ =~= bits@);
        }
        r
    }

    /// The bits of the code, one per dimension.
    pub fn to_bits(&self) -> (r: Vec<bool>)
        ensures
            r@ == self@,
    {
        proof {
            use_type_invariant(self);
        }
        let mut out: Vec<bool> = Vec::new();
        let mut i: usize = 0;
        while i < self.dim
            invariant
                i <= self.dim,
                self.words@.len() == word_count(self.dim as nat),
                out@.len() == i,
                forall|p: int| 0 <= p < i ==> out@[p] == #[trigger] self@[p],
            decreases self.dim - i,
        {
            let word = self.words[i / BITS_PER_WORD];
            let bit = (word >> ((i % BITS_PER_WORD) as u64)) & 1u64;
            out.push(bit == 1u64);
            i = i + 1;
        }
        proof {
            assert(out@ =~= self@);
        }
        out
    }

    /// Returns the original vector dimension this code was produced from.
    pub fn dim(&self) -> (r: usize)
        ensures
            r == self@.len(),
    {
        self.dim
    }

    /// Returns `true` if the code encodes a zero-dimensional vector.
    pub fn is_empty(&self) -> (r: bool)
        ensures
            r == (self@.len() == 0),
    {
        self.dim == 0
    }

    /// Borrow the raw packed `u64` words; the unused high bits of the
    /// trailing word are zero.
    pub fn as_words(&self) -> (r: &[u64])
        ensures
            r@ == self.words_view(),
            self.layout_holds(),
    {
        proof {
            use_type_invariant(self);
        }
        self.words.as_slice()
    }
}

proof fn lemma_bit_of_zero(j: u64)
    requires
        j < 64,
    ensures
        !bit_of(0u64, j),
{
    assert((0u64 >> j) & 1u64 != 1u64) by (bit_vector)
        requires
            j < 64,
    ;
}

/// Setting bit `k` of a word sets bit `k` and leaves every other bit as it
/// was.
proof fn lemma_set_bit(w: u64, k: u64, j: u64)
    requires
        k < 64,
        j < 64,
    ensures
        bit_of(w | (1u64 << k), j) == (j == k || bit_of(w, j)),
{
    assert((((w | (1u64 << k)) >> j) & 1u64 == 1u64) == (j == k || (w >> j) & 1u64 == 1u64))
        by (bit_vector)
        requires
            k < 64,
            j < 64,
    ;
}

/// A product-quantized (PQ) code: one `u8` centroid index per subvector.
#[derive(Debug, PartialEq, Eq)]
pub struct PqCode {
    codes: Vec<u8>,
    dim: usize,
    n_subvectors: usize,
}

impl Clone for PqCode {
    fn clone(&self) -> (r: Self)
        ensures
            r@ == self@,
            r.spec_dim() == self.spec_dim(),
    {
        proof {
            use_type_invariant(self);
        }
        PqCode { codes: self.codes.clone(), dim: self.dim, n_subvectors: self.n_subvectors }
    }
}

impl View for PqCode {
    type V = Seq<u8>;

    /// The centroid indices, one per subvector.
    closed spec fn view(&self) -> Seq<u8> {
        self.codes@
    }
}

impl PqCode {
    /// The dimension of the vector the code was produced from.
    pub closed spec fn spec_dim(&self) -> usize {
        self.dim
    }

    #[verifier::type_invariant]
    closed spec fn well_formed(self) -> bool {
        self.codes@.len() == self.n_subvectors
    }

    /// Build the code of a vector of dimension `dim` from the index of the
    /// nearest centroid of each subvector codebook.
    pub(crate) fn from_centroid_indices(indices: &Vec<usize>, dim: usize) -> (r: Self)
        requires
            forall|m: int| 0 <= m < indices@.len() ==> #[trigger] indices@[m] < 256,
        ensures
            r@.len() == indices@.len(),
            forall|m: int| 0 <= m < indices@.len() ==> r@[m] == #[trigger] indices@[m],
            r.spec_dim() == dim,
    {
        let mut codes: Vec<u8> = Vec::new();
        let mut m: usize = 0;
        while m < indices.len()
            invariant
                m <= indices@.len(),
                codes@.len() == m,
                forall|j: int| 0 <= j < indices@.len() ==> #[trigger] indices@[j] < 256,
                forall|j: int| 0 <= j < m ==> codes@[j] == #[trigger] indices@[j],
            decreases indices@.len() - m,
        {
            codes.push(indices[m] as u8);
            m = m + 1;
        }
        PqCode { codes, dim, n_subvectors: indices.len() }
    }

    /// Returns the original vector dimension this code was produced from.
    pub fn dim(&self) -> (r: usize)
        ensures
            r == self.spec_dim(),
    {
        self.dim
    }

    /// Returns the number of subvectors `M` this code was produced under;
    /// equal to the number of bytes of the code.
    pub fn n_subvectors(&self) -> (r: usize)
        ensures
            r == self@.len(),
    {
        proof {
            use_type_invariant(self);
        }
        self.n_subvectors
    }

    /// Returns the number of bytes in the code.
    pub fn len(&self) -> (r: usize)
        ensures
            r == self@.len(),
    {
        self.codes.len()
    }

    /// Returns `true` if the code holds no centroid indices.
    pub fn is_empty(&self) -> (r: bool)
        ensures
            r == (self@.len() == 0),
    {
        self.codes.len() == 0
    }

    /// Borrow the raw centroid-index bytes.
    pub fn as_bytes(&self) -> (r: &[u8])
        ensures
            r@ == self@,
    {
        self.codes.as_slice()
    }
}

} // verus!
