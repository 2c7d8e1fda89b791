//! A small seeded deterministic PRNG (Vigna's SplitMix64).
//!
//! The generator holds one `u64` of state. Every draw first advances the
//! state by a fixed odd constant, then returns a bijective mix of the new
//! state. Both facts are stated as specs below and drive the laws of this
//! module: the sequence is a pure function of the seed, and two generators
//! with different seeds never agree at the same position.

use vstd::prelude::*;

verus! {

/// The additive constant ("golden gamma") applied to the state per draw.
pub const GAMMA: u64 = 0x9E37_79B9_7F4A_7C15;

/// First multiplicative constant of the output mix.
pub const MIX1: u64 = 0xBF58_476D_1CE4_E5B9;

/// Second multiplicative constant of the output mix.
pub const MIX2: u64 = 0x94D0_49BB_1331_11EB;

/// The state that follows `state`.
pub open spec fn advance(state: u64) -> u64 {
    (state + GAMMA) as u64
}

/// The output mix applied to an advanced state.
pub open spec fn mix(z: u64) -> u64 {
    let a = ((z ^ (z >> 30u64)) * MIX1) as u64;
    let b = ((a ^ (a >> 27u64)) * MIX2) as u64;
    b ^ (b >> 31u64)
}

/// The state after `k` draws from a generator seeded with `seed`.
pub open spec fn nth_state(seed: u64, k: nat) -> u64
    decreases k,
{
    if k == 0 {
        seed
    } else {
        advance(nth_state(seed, (k - 1) as nat))
    }
}

/// The state after `k` draws is the seed plus `k` steps of `GAMMA`,
/// modulo 2^64.
pub proof fn lemma_nth_state_closed_form(seed: u64, k: nat)
    ensures
        nth_state(seed, k) as int == (seed + k * GAMMA) % 0x1_0000_0000_0000_0000,
    decreases k,
{
    if k == 0 {
        assert(seed as int % 0x1_0000_0000_0000_0000 == seed as int);
    } else {
        lemma_nth_state_closed_form(seed, (k - 1) as nat);
        let p = nth_state(seed, (k - 1) as nat);
        assert((p + GAMMA) as u64 as int == (p as int + GAMMA as int) % 0x1_0000_0000_0000_0000)
            by (bit_vector);
        vstd::arithmetic::div_mod::lemma_add_mod_noop(
            seed + (k - 1) * GAMMA,
            GAMMA as int,
            0x1_0000_0000_0000_0000,
        );
        assert(GAMMA as int % 0x1_0000_0000_0000_0000 == GAMMA as int);
        assert(seed + (k - 1) * GAMMA + GAMMA == seed + k * GAMMA) by (nonlinear_arith);
    }
}

/// The `k`-th draw (counting from zero) is the mix of the seed plus
/// `k + 1` steps of `GAMMA`, modulo 2^64.
pub proof fn lemma_nth_output_closed_form(seed: u64, k: nat)
    ensures
        nth_output(seed, k) == mix(((seed + (k + 1) * GAMMA) % 0x1_0000_0000_0000_0000) as u64),
{
    lemma_nth_state_closed_form(seed, k + 1);
}

/// The `k`-th value (counting from zero) drawn from a generator seeded
/// with `seed`.
pub open spec fn nth_output(seed: u64, k: nat) -> u64 {
    mix(nth_state(seed, k + 1))
}

/// The multiplicative inverse of `GAMMA` modulo 2^64.
pub const GAMMA_INV: u64 = 0xF1DE_83E1_9937_733D;

/// How many further draws a generator in `state` makes before its state
/// advances to zero (the state whose draw is `mix(0) == 0`). Each draw
/// lowers it by one, so it measures the distance to a draw of zero.
pub open spec fn draws_until_zero(state: u64) -> u64 {
    (((!((state + GAMMA) as u64) + 1) as u64) * GAMMA_INV) as u64
}

/// The countdown to the zero state falls by one on every draw, and at
/// zero the next state is zero.
pub proof fn lemma_draws_until_zero(s: u64)
    ensures
        draws_until_zero(s) == 0 ==> advance(s) == 0,
        draws_until_zero(s) != 0 ==> draws_until_zero(advance(s)) == draws_until_zero(s) - 1,
{
    assert(draws_until_zero(s) == 0 ==> advance(s) == 0) by (bit_vector);
    let a = (s + GAMMA) as u64;
    let x = (!a + 1) as u64;
    let y = (!((a + GAMMA) as u64) + 1) as u64;
    assert(y == (x - GAMMA) as u64) by (bit_vector)
        requires
            x == (!a + 1) as u64,
            y == (!((a + GAMMA) as u64) + 1) as u64,
    ;
    lemma_times_gamma_inv_step(x);
}

/// Multiplying by `GAMMA_INV` turns a step of `GAMMA` into a step of one.
proof fn lemma_times_gamma_inv_step(x: u64)
    ensures
        (((x - GAMMA) as u64) * GAMMA_INV) as u64 == (((x * GAMMA_INV) as u64) - 1) as u64,
{
    assert((((x - GAMMA) as u64) * GAMMA_INV) as u64 == (((x * GAMMA_INV) as u64) - 1) as u64)
        by (bit_vector);
}

/// The mix sends zero to zero.
pub proof fn lemma_mix_zero()
    ensures
        mix(0) == 0,
{
    assert(mix(0) == 0) by (bit_vector);
}

/// Draws at or above this bound are rejected by `next_below(n)`; below it
/// every residue modulo `n` is equally frequent.
pub open spec fn zone(n: u64) -> u64 {
    (u64::MAX - u64::MAX % n) as u64
}

/// The rejection bound keeps the draw exact: it is a positive multiple of
/// `n`, so the accepted draws `0..zone(n)` cover every residue modulo `n`
/// equally often (`zone(n) / n` times each).
pub proof fn lemma_zone_is_multiple(n: u64)
    requires
        n >= 1,
    ensures
        zone(n) >= 1,
        zone(n) % n == 0,
        zone(n) as int == (u64::MAX as int / n as int) * n as int,
{
    vstd::arithmetic::div_mod::lemma_fundamental_div_mod(u64::MAX as int, n as int);
    vstd::arithmetic::div_mod::lemma_mod_multiples_basic(u64::MAX as int / n as int, n as int);
    assert((u64::MAX as int / n as int) * n as int == n as int * (u64::MAX as int / n as int)) by (nonlinear_arith);
}

/// The value returned by `next_below(n)` from a generator in `state`, with
/// the state it leaves behind: draw until a value falls below `zone(n)`,
/// then reduce it modulo `n`.
pub open spec fn below_draw(state: u64, n: u64) -> (u64, u64)
    decreases draws_until_zero(state),
    when n >= 1
{
    let s1 = advance(state);
    let v = mix(s1);
    if v < zone(n) {
        ((v % n) as u64, s1)
    } else {
        proof {
            lemma_draws_until_zero(state);
            lemma_mix_zero();
        }
        below_draw(s1, n)
    }
}

/// Exclusive upper bound of the 53-bit draws behind `next_open_unit_bits`.
pub const OPEN_UNIT_SCALE: u64 = 0x20_0000_0000_0000;

/// Number of draws `next_open_unit_bits` makes before it falls back to one.
pub const OPEN_UNIT_TRIES: u64 = 4;

/// The value returned by `next_open_unit_bits` from a generator in
/// `state`, given `tries` draws left, with the state it leaves behind: the
/// top 53 bits of the first draw whose top 53 bits are not all zero, or
/// one once the tries run out.
pub open spec fn open_unit_draw(state: u64, tries: nat) -> (u64, u64)
    decreases tries,
{
    if tries == 0 {
        (1, state)
    } else {
        let s1 = advance(state);
        let bits = mix(s1) >> 11u64;
        if bits != 0 {
            (bits, s1)
        } else {
            open_unit_draw(s1, (tries - 1) as nat)
        }
    }
}

/// Multiplicative inverse of `MIX1` modulo 2^64.
pub const MIX1_INV: u64 = 0x96DE_1B17_3F11_9089;

/// Multiplicative inverse of `MIX2` modulo 2^64.
pub const MIX2_INV: u64 = 0x3196_42B2_D24D_8EC3;

/// Advancing the state is injective.
pub proof fn lemma_advance_injective(a: u64, b: u64)
    requires
        advance(a) == advance(b),
    ensures
        a == b,
{
    assert((a + GAMMA) as u64 == (b + GAMMA) as u64 ==> a == b) by (bit_vector);
}

/// The output mix is injective: distinct states give distinct draws.
pub proof fn lemma_mix_injective(a: u64, b: u64)
    requires
        mix(a) == mix(b),
    ensures
        a == b,
{
    let a1 = ((a ^ (a >> 30u64)) * MIX1) as u64;
    let b1 = ((b ^ (b >> 30u64)) * MIX1) as u64;
    let a2 = ((a1 ^ (a1 >> 27u64)) * MIX2) as u64;
    let b2 = ((b1 ^ (b1 >> 27u64)) * MIX2) as u64;
    assert(a2 ^ (a2 >> 31u64) == b2 ^ (b2 >> 31u64) ==> a2 == b2) by (bit_vector);
    lemma_mul_cancels(a1 ^ (a1 >> 27u64), b1 ^ (b1 >> 27u64), MIX2, MIX2_INV);
    assert(a1 ^ (a1 >> 27u64) == b1 ^ (b1 >> 27u64) ==> a1 == b1) by (bit_vector);
    lemma_mul_cancels(a ^ (a >> 30u64), b ^ (b >> 30u64), MIX1, MIX1_INV);
    assert(a ^ (a >> 30u64) == b ^ (b >> 30u64) ==> a == b) by (bit_vector);
}

proof fn lemma_mul_cancels(x: u64, y: u64, c: u64, c_inv: u64)
    requires
        (c == MIX1 && c_inv == MIX1_INV) || (c == MIX2 && c_inv == MIX2_INV),
        (x * c) as u64 == (y * c) as u64,
    ensures
        x == y,
{
    if c == MIX1 {
        assert((((x * MIX1) as u64) * MIX1_INV) as u64 == x) by (bit_vector);
        assert((((y * MIX1) as u64) * MIX1_INV) as u64 == y) by (bit_vector);
    } else {
        assert((((x * MIX2) as u64) * MIX2_INV) as u64 == x) by (bit_vector);
        assert((((y * MIX2) as u64) * MIX2_INV) as u64 == y) by (bit_vector);
    }
}

/// Distinct seeds stay distinct after any number of draws.
pub proof fn lemma_nth_state_injective(s1: u64, s2: u64, k: nat)
    requires
        s1 != s2,
    ensures
        nth_state(s1, k) != nth_state(s2, k),
    decreases k,
{
    if k > 0 {
        lemma_nth_state_injective(s1, s2, (k - 1) as nat);
        if nth_state(s1, k) == nth_state(s2, k) {
            lemma_advance_injective(nth_state(s1, (k - 1) as nat), nth_state(s2, (k - 1) as nat));
        }
    }
}

/// Two generators seeded differently never produce the same value at the
/// same position of their sequences.
pub proof fn lemma_different_seeds_never_agree(s1: u64, s2: u64, k: nat)
    requires
        s1 != s2,
    ensures
        nth_output(s1, k) != nth_output(s2, k),
{
    lemma_nth_state_injective(s1, s2, k + 1);
    if nth_output(s1, k) == nth_output(s2, k) {
        lemma_mix_injective(nth_state(s1, k + 1), nth_state(s2, k + 1));
    }
}

/// Each draw consumes one position of the sequence: the sequence seen from
/// the advanced state is the original sequence shifted by one.
pub proof fn lemma_sequence_shifts(seed: u64, k: nat)
    ensures
        nth_state(advance(seed), k) == nth_state(seed, k + 1),
        nth_output(advance(seed), k) == nth_output(seed, k + 1),
{
    lemma_state_shifts(seed, k);
    lemma_state_shifts(seed, k + 1);
}

proof fn lemma_state_shifts(seed: u64, k: nat)
    ensures
        nth_state(advance(seed), k) == nth_state(seed, k + 1),
    decreases k,
{
    if k > 0 {
        lemma_state_shifts(seed, (k - 1) as nat);
        assert(nth_state(advance(seed), k) == advance(nth_state(advance(seed), (k - 1) as nat)));
        assert(nth_state(seed, k + 1) == advance(nth_state(seed, k)));
    } else {
        assert(nth_state(seed, 1) == advance(nth_state(seed, 0)));
    }
}

/// Generators holding the same state produce the same sequence of draws.
pub proof fn lemma_same_seed_same_sequence(s1: u64, s2: u64, k: nat)
    requires
        s1 == s2,
    ensures
        nth_output(s1, k) == nth_output(s2, k),
{
}

/// `next_below(n)` is rejection sampling over the generator's sequence:
/// from a generator in `state` it makes `k >= 1` draws, the last of which
/// is the first draw below `zone(n)`, returns that draw modulo `n`, and
/// leaves the generator `k` draws further on.
pub proof fn lemma_below_draw_is_first_accepted(state: u64, n: u64) -> (k: nat)
    requires
        n >= 1,
    ensures
        k >= 1,
        below_draw(state, n).1 == nth_state(state, k),
        nth_output(state, (k - 1) as nat) < zone(n),
        below_draw(state, n).0 == nth_output(state, (k - 1) as nat) % n,
        forall|j: nat| j < k - 1 ==> #[trigger] nth_output(state, j) >= zone(n),
    decreases draws_until_zero(state),
{
    let s1 = advance(state);
    assert(nth_state(state, 1) == advance(nth_state(state, 0)));
    if mix(s1) < zone(n) {
        1
    } else {
        lemma_draws_until_zero(state);
        lemma_mix_zero();
        lemma_zone_is_multiple(n);
        let k1 = lemma_below_draw_is_first_accepted(s1, n);
        lemma_sequence_shifts(state, k1);
        lemma_sequence_shifts(state, (k1 - 1) as nat);
        assert forall|j: nat| j < k1 implies #[trigger] nth_output(state, j) >= zone(n) by {
            if j > 0 {
                lemma_sequence_shifts(state, (j - 1) as nat);
                assert(nth_output(s1, (j - 1) as nat) >= zone(n));
            }
        }
        k1 + 1
    }
}

/// `next_open_unit_bits` returns the top 53 bits of the first of at most
/// `tries` draws whose top 53 bits are not all zero, leaving the generator
/// after that draw; when all `tries` draws have zero top bits it returns
/// one, after `tries` draws.
pub proof fn lemma_open_unit_draw_is_first_nonzero(state: u64, tries: nat) -> (k: nat)
    ensures
        k <= tries,
        open_unit_draw(state, tries).1 == nth_state(state, k),
        ({
            let r = open_unit_draw(state, tries).0;
            ||| (k >= 1 && r == nth_output(state, (k - 1) as nat) >> 11u64 && r != 0 && forall|j: nat|
                j < k - 1 ==> #[trigger] nth_output(state, j) >> 11u64 == 0)
            ||| (k == tries && r == 1 && forall|j: nat| j < tries ==> #[trigger] nth_output(state, j) >> 11u64 == 0)
        }),
    decreases tries,
{
    if tries == 0 {
        0
    } else {
        let s1 = advance(state);
        assert(nth_state(state, 1) == advance(nth_state(state, 0)));
        if mix(s1) >> 11u64 != 0 {
            1
        } else {
            let k1 = lemma_open_unit_draw_is_first_nonzero(s1, (tries - 1) as nat);
            lemma_sequence_shifts(state, k1);
            if k1 >= 1 {
                lemma_sequence_shifts(state, (k1 - 1) as nat);
            }
            assert forall|j: nat| 1 <= j <= tries implies #[trigger] nth_output(state, j) == nth_output(
                s1,
                (j - 1) as nat,
            ) by {
                lemma_sequence_shifts(state, (j - 1) as nat);
            }
            assert(nth_output(state, 0) == mix(s1));
            k1 + 1
        }
    }
}

/// A deterministic 64-bit PRNG seeded once at construction.
///
/// Cloning copies the state, so two clones produce identical subsequent
/// draws.
#[derive(Debug, Clone, Copy)]
pub struct SplitMix64 {
    state: u64,
}

impl View for SplitMix64 {
    type V = u64;

    closed spec fn view(&self) -> u64 {
        self.state
    }
}

proof fn lemma_wrapping_add_gamma(s: u64)
    ensures
        vstd::wrapping::u64_specs::wrapping_add(s, GAMMA) == advance(s),
{
    assert(vstd::wrapping::u64_specs::wrapping_add(s, GAMMA) == (s + GAMMA) as u64) by (bit_vector);
}

proof fn lemma_wrapping_mul(x: u64, c: u64)
    ensures
        vstd::wrapping::u64_specs::wrapping_mul(x, c) == (x * c) as u64,
{
    assert(vstd::wrapping::u64_specs::wrapping_mul(x, c) == (x * c) as u64) by (bit_vector);
}

impl SplitMix64 {
    /// Build a generator seeded with `seed` (zero is a valid seed).
    pub fn new(seed: u64) -> (r: Self)
        ensures
            r@ == seed,
    {
        SplitMix64 { state: seed }
    }

    /// Advance the generator and return the next `u64`.
    pub fn next_u64(&mut self) -> (r: u64)
        ensures
            final(self)@ == advance(old(self)@),
            r == mix(final(self)@),
    {
        proof {
            lemma_wrapping_add_gamma(self.state);
        }
        self.state = self.state.wrapping_add(GAMMA);
        let z0 = self.state;
        let x1 = z0 ^ (z0 >> 30);
        proof {
            lemma_wrapping_mul(x1, MIX1);
        }
        let z1 = x1.wrapping_mul(MIX1);
        let x2 = z1 ^ (z1 >> 27);
        proof {
            lemma_wrapping_mul(x2, MIX2);
        }
        let z2 = x2.wrapping_mul(MIX2);
        z2 ^ (z2 >> 31)
    }

    /// Uniform integer draw in `0..n` by rejection of the biased top zone,
    /// so the distribution is exact even when `n` is not a power of two.
    pub fn next_below(&mut self, n: u64) -> (r: u64)
        requires
            n >= 1,
        ensures
            (r, final(self)@) == below_draw(old(self)@, n),
            r < n,
    {
        let bound = u64::MAX - (u64::MAX % n);
        let ghost start = self@;
        loop
            invariant
                n >= 1,
                bound == zone(n),
                below_draw(self@, n) == below_draw(start, n),
                start == old(self)@,
            decreases draws_until_zero(self@),
        {
            let ghost before = self@;
            let v = self.next_u64();
            if v < bound {
                return v % n;
            }
            proof {
                lemma_draws_until_zero(before);
                lemma_mix_zero();
            }
        }
    }

    /// The numerator `b` of a unit-interval draw `b / 2^53` that is never
    /// zero: the top 53 bits of the next draw, re-drawn while they are all
    /// zero, falling back to `1` after `OPEN_UNIT_TRIES` draws.
    pub fn next_open_unit_bits(&mut self) -> (r: u64)
        ensures
            (r, final(self)@) == open_unit_draw(old(self)@, OPEN_UNIT_TRIES as nat),
            1 <= r < OPEN_UNIT_SCALE,
    {
        let mut tries: u64 = 0;
        while tries < OPEN_UNIT_TRIES
            invariant
                tries <= OPEN_UNIT_TRIES,
                open_unit_draw(self@, (OPEN_UNIT_TRIES - tries) as nat) == open_unit_draw(
                    old(self)@,
                    OPEN_UNIT_TRIES as nat,
                ),
            decreases OPEN_UNIT_TRIES - tries,
        {
            let v = self.next_u64();
            let bits = v >> 11;
            assert(bits < OPEN_UNIT_SCALE) by (bit_vector)
                requires
                    bits == v >> 11u64,
            ;
            if bits != 0 {
                return bits;
            }
            tries = tries + 1;
        }
        1
    }
}

} // verus!
