//! Deterministic SplitMix64 generator: the same seed and the same call sequence
//! always give the same numbers, and seed 0 does not degenerate.

use vstd::prelude::*;

verus! {

/// Increment added to the state at every step.
pub const GOLDEN_GAMMA: u64 = 0x9E37_79B9_7F4A_7C15;

/// First multiplier of the output mix.
pub const MIX_MUL_1: u64 = 0xBF58_476D_1CE4_E5B9;

/// Second multiplier of the output mix.
pub const MIX_MUL_2: u64 = 0x94D0_49BB_1331_11EB;

/// State after one step from `state`.
pub open spec fn next_state(state: u64) -> u64 {
    vstd::wrapping::u64_specs::wrapping_add(state, GOLDEN_GAMMA)
}

/// The SplitMix64 finaliser applied to a state.
pub open spec fn mix(z: u64) -> u64 {
    let z1 = vstd::wrapping::u64_specs::wrapping_mul(z ^ (z >> 30u64), MIX_MUL_1);
    let z2 = vstd::wrapping::u64_specs::wrapping_mul(z1 ^ (z1 >> 27u64), MIX_MUL_2);
    z2 ^ (z2 >> 31u64)
}

/// The number that one step from `state` yields.
pub open spec fn output(state: u64) -> u64 {
    mix(next_state(state))
}

/// State after `n` steps from `state`.
pub open spec fn state_after(state: u64, n: nat) -> u64
    decreases n,
{
    if n == 0 {
        state
    } else {
        next_state(state_after(state, (n - 1) as nat))
    }
}

/// Size of the `u64` ring in which the state lives.
pub open spec fn ring() -> int {
    0x1_0000_0000_0000_0000
}

/// After `n` steps the state is the seed plus `n` increments, taken modulo 2^64.
pub proof fn lemma_state_after_closed_form(seed: u64, n: nat)
    ensures
        state_after(seed, n) as int == (seed + n * GOLDEN_GAMMA) % ring(),
    decreases n,
{
    if n == 0 {
        vstd::arithmetic::div_mod::lemma_small_mod(seed as nat, ring() as nat);
    } else {
        let m = (n - 1) as nat;
        lemma_state_after_closed_form(seed, m);
        let prev = state_after(seed, m);
        let y: int = seed + m * GOLDEN_GAMMA;
        assert(n * GOLDEN_GAMMA == m * GOLDEN_GAMMA + GOLDEN_GAMMA) by (nonlinear_arith)
            requires
                n == m + 1,
        ;
        vstd::arithmetic::div_mod::lemma_add_mod_noop_right(GOLDEN_GAMMA as int, y, ring());
        if prev + GOLDEN_GAMMA >= ring() {
            vstd::arithmetic::div_mod::lemma_mod_sub_multiples_vanish(prev + GOLDEN_GAMMA, ring());
            vstd::arithmetic::div_mod::lemma_small_mod((prev + GOLDEN_GAMMA - ring()) as nat, ring() as nat);
        } else {
            vstd::arithmetic::div_mod::lemma_small_mod((prev + GOLDEN_GAMMA) as nat, ring() as nat);
        }
    }
}

/// The `k`-th number (counting from 1) that a generator seeded with `seed`
/// yields is the finaliser applied to `seed + k * GOLDEN_GAMMA` (mod 2^64),
/// written with the same wrapping operations as the step itself.
///
/// By the contracts of `Rng::new` and `Rng::next_u64`, the `k`-th call of
/// `next_u64` after `Rng::new(seed)` returns `output(state_after(seed, k - 1))`;
/// two generators with one seed therefore yield one sequence, seed 0 included.
pub proof fn lemma_kth_output(seed: u64, k: u64)
    requires
        k >= 1,
    ensures
        output(state_after(seed, (k - 1) as nat)) == mix(
            vstd::wrapping::u64_specs::wrapping_add(
                seed,
                vstd::wrapping::u64_specs::wrapping_mul(k, GOLDEN_GAMMA),
            ),
        ),
{
    let n = (k - 1) as nat;
    lemma_state_after_closed_form(seed, k as nat);
    assert(state_after(seed, k as nat) == next_state(state_after(seed, n)));
    let p: int = k * GOLDEN_GAMMA;
    let w = vstd::wrapping::u64_specs::wrapping_mul(k, GOLDEN_GAMMA);
    assert(w as int == p % ring());
    vstd::arithmetic::div_mod::lemma_add_mod_noop_right(seed as int, p, ring());
    let t: int = seed + w;
    if t >= ring() {
        vstd::arithmetic::div_mod::lemma_mod_sub_multiples_vanish(t, ring());
        vstd::arithmetic::div_mod::lemma_small_mod((t - ring()) as nat, ring() as nat);
    } else {
        vstd::arithmetic::div_mod::lemma_small_mod(t as nat, ring() as nat);
    }
}

/// Value drawn from `[lo, hi]` by a step from `state`.
pub open spec fn range_value(state: u64, lo: u16, hi: u16) -> u16 {
    (lo + output(state) % ((hi - lo) as u64 + 1) as u64) as u16
}

pub struct Rng {
    state: u64,
}

impl Rng {
    /// The generator's whole state.
    pub closed spec fn state(&self) -> u64 {
        self.state
    }

    pub fn new(seed: u64) -> (r: Self)
        ensures
            r.state() == seed,
    {
        Self { state: seed }
    }

    /// One SplitMix64 step.
    pub fn next_u64(&mut self) -> (r: u64)
        ensures
            final(self).state() == next_state(old(self).state()),
            r == output(old(self).state()),
    {
        self.state = self.state.wrapping_add(GOLDEN_GAMMA);
        let mut z = self.state;
        z = (z ^ (z >> 30u64)).wrapping_mul(MIX_MUL_1);
        z = (z ^ (z >> 27u64)).wrapping_mul(MIX_MUL_2);
        z ^ (z >> 31u64)
    }

    /// Uniform draw from `[lo, hi]`, both ends included.
    pub fn gen_range_inclusive(&mut self, lo: u16, hi: u16) -> (r: u16)
        requires
            lo <= hi,
        ensures
            final(self).state() == next_state(old(self).state()),
            r == range_value(old(self).state(), lo, hi),
            lo <= r <= hi,
    {
        let span: u64 = (hi - lo) as u64 + 1;
        let x = self.next_u64();
        let off: u64 = x % span;
        assert(off <= (hi - lo) as u64);
        lo + off as u16
    }
}

} // verus!
