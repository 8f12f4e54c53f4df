//! Deterministic random signs for the Walsh-Hadamard rotation of key/value vectors.
//! The signs come from a 64-bit linear congruential generator seeded on the vector length,
//! so that every session rotates a given head dimension the same way. Each sign is given
//! as the bit pattern of the f32 value +1.0 or -1.0.
use vstd::prelude::*;

verus! {

/// Bit pattern of the f32 value 1.0.
pub const SIGN_PLUS_BITS: u32 = 0x3f80_0000u32;

/// Bit pattern of the f32 value -1.0.
pub const SIGN_MINUS_BITS: u32 = 0xbf80_0000u32;

/// Multiplier of the generator.
pub const LCG_MULTIPLIER: u64 = 6364136223846793005u64;

/// Value mixed into the length to seed the generator.
pub const WHT_SEED_MIX: u64 = 0x517c_c1b7_2722_0a95u64;

/// One step of the generator: `state * LCG_MULTIPLIER + 1` modulo 2^64.
pub open spec fn spec_lcg_next(s: u64) -> u64 {
    ((s as nat * LCG_MULTIPLIER as nat + 1) % 0x1_0000_0000_0000_0000nat) as u64
}

/// The generator state after `k` steps from `seed`.
pub open spec fn spec_lcg_state(seed: u64, k: nat) -> u64
    decreases k,
{
    if k == 0 {
        seed
    } else {
        spec_lcg_next(spec_lcg_state(seed, (k - 1) as nat))
    }
}

/// Seed of the generator for vectors of `dim` elements.
pub open spec fn spec_wht_seed(dim: usize) -> u64 {
    (dim as u64) ^ WHT_SEED_MIX
}

/// Sign drawn from a state: -1 when its top bit is set, +1 otherwise.
pub open spec fn spec_sign_bits(s: u64) -> u32 {
    if s < 0x8000_0000_0000_0000u64 { SIGN_PLUS_BITS } else { SIGN_MINUS_BITS }
}

/// The signs for a vector of `dim` elements: sign `i` is drawn from the state after
/// `i + 1` steps.
pub open spec fn spec_wht_signs(dim: usize) -> Seq<u32> {
    Seq::new(dim as nat, |i: int| spec_sign_bits(spec_lcg_state(spec_wht_seed(dim), (i + 1) as nat)))
}

/// One step of the generator.
fn lcg_step(s: u64) -> (r: u64)
    ensures
        r == spec_lcg_next(s),
{
    let r = s.wrapping_mul(LCG_MULTIPLIER).wrapping_add(1);
    proof {
        let m: int = 0x1_0000_0000_0000_0000int;
        let x = s as int * LCG_MULTIPLIER as int;
        vstd::arithmetic::div_mod::lemma_add_mod_noop(x, 1, m);
        assert(0 <= x % m < m);
    }
    r
}

/// The f32 bit patterns of the rotation signs for vectors of `dim` elements.
pub fn wht_sign_bits(dim: usize) -> (signs: Vec<u32>)
    ensures
        signs@ == spec_wht_signs(dim),
{
    let mut signs: Vec<u32> = Vec::with_capacity(dim);
    let mut state: u64 = (dim as u64) ^ WHT_SEED_MIX;
    let mut i: usize = 0;
    while i < dim
        invariant
            i <= dim,
            state == spec_lcg_state(spec_wht_seed(dim), i as nat),
            signs@.len() == i,
            forall|t: int| 0 <= t < i ==> #[trigger] signs@[t] == spec_wht_signs(dim)[t],
        decreases dim - i,
    {
        state = lcg_step(state);
        let top = state >> 63u64;
        assert(top == 0 <==> state < 0x8000_0000_0000_0000u64) by (bit_vector)
            requires top == state >> 63u64;
        signs.push(if top == 0 { SIGN_PLUS_BITS } else { SIGN_MINUS_BITS });
        i = i + 1;
    }
    assert(signs@ =~= spec_wht_signs(dim));
    signs
}

} // verus!
