use crate::state::DECK_SIZE;
use vstd::arithmetic::div_mod::lemma_mul_mod_noop_left;
use vstd::prelude::*;

verus! {

/// Multiplier of the Lehmer (Park-Miller) generator.
pub const LCG_MULTIPLIER: u64 = 48271;

/// Modulus of the Lehmer (Park-Miller) generator, the prime 2^31 - 1.
pub const LCG_MODULUS: u64 = 2147483647;

/// The generator's first state: seed plus timestamp, wrapping.
pub open spec fn rng_start(seed: u64, timestamp: i64) -> u64 {
    seed.wrapping_add(timestamp as u64)
}

/// One step of the generator: the exact product with the multiplier,
/// reduced modulo the prime.
pub open spec fn rng_step(s: u64) -> u64 {
    ((s as int * LCG_MULTIPLIER as int) % LCG_MODULUS as int) as u64
}

/// The generator's state after `k` steps from `s0`.
pub open spec fn rng_state(s0: u64, k: nat) -> u64
    decreases k,
{
    if k == 0 {
        s0
    } else {
        rng_step(rng_state(s0, (k - 1) as nat))
    }
}

/// The `k`-th card drawn from the stream that starts at `s0`.
pub open spec fn card_at(s0: u64, k: nat) -> u8 {
    (rng_state(s0, k) % DECK_SIZE) as u8
}

pub fn start(seed: u64, timestamp: i64) -> (r: u64)
    ensures
        r == rng_start(seed, timestamp),
{
    seed.wrapping_add(#[verifier::truncate] (timestamp as u64))
}

pub fn step(s: u64) -> (r: u64)
    ensures
        r == rng_step(s),
{
    // Reducing first keeps the product below 2^47.
    let r = s % LCG_MODULUS;
    assert(r * LCG_MULTIPLIER < 0x1_0000_0000_0000) by (nonlinear_arith)
        requires
            r < LCG_MODULUS,
    ;
    proof {
        lemma_mul_mod_noop_left(s as int, LCG_MULTIPLIER as int, LCG_MODULUS as int);
    }
    r * LCG_MULTIPLIER % LCG_MODULUS
}

pub fn card(s: u64) -> (r: u8)
    ensures
        r == (s % DECK_SIZE) as u8,
        r < DECK_SIZE,
{
    (s % DECK_SIZE) as u8
}

} // verus!
