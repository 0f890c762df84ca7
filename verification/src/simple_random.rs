//! A small deterministic pseudo-random helper: one step of a linear
//! congruential generator, reduced to a pool slot index.
use vstd::prelude::*;

verus! {

/// Multiplier of the linear congruential step.
pub const LCG_A: u32 = 1664525;

/// Increment of the linear congruential step.
pub const LCG_C: u32 = 1013904223;

/// Modulus applied to the updated seed (2^31).
pub const LCG_M: u32 = 0x8000_0000;

/// The updated seed: `(LCG_A * seed + LCG_C)` with wrapping 32-bit
/// arithmetic, reduced modulo [`LCG_M`].
pub open spec fn spec_lcg_step(seed: u32) -> nat {
    ((((LCG_A as int * seed as int) % 0x1_0000_0000) + LCG_C as int) % 0x1_0000_0000 % (
    LCG_M as int)) as nat
}

/// The slot that one generator step starting from `seed` picks out of
/// `pool_size` slots.
pub open spec fn spec_simple_random(seed: u32, pool_size: u32) -> nat {
    spec_lcg_step(seed) % pool_size as nat
}

/// Picks a pseudo-random slot in `[0, pool_size)` from `seed` by one
/// linear congruential step. A zero pool size has no slot to pick and is
/// rejected up front.
pub fn simple_random(seed: u32, pool_size: u32) -> (r: u32)
    requires
        pool_size > 0,
    ensures
        r as nat == spec_simple_random(seed, pool_size),
        r < pool_size,
{
    let product: u64 = (seed as u64) * (LCG_A as u64);
    proof {
        vstd::arithmetic::mul::lemma_mul_inequality(seed as int, 0xffff_ffff, LCG_A as int);
    }
    let new_seed: u64 = ((product + (LCG_C as u64)) % 0x1_0000_0000) % (LCG_M as u64);
    proof {
        vstd::arithmetic::div_mod::lemma_add_mod_noop(
            LCG_A as int * seed as int,
            LCG_C as int,
            0x1_0000_0000,
        );
    }
    (new_seed % (pool_size as u64)) as u32
}

} // verus!
