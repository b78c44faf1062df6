//! The core bit mixer and the coordinate linearizers.

use vstd::prelude::*;

verus! {

/// First mixing constant: multiplier applied to the raw index.
pub const SQ5_BIT_NOISE1: u32 = 0xd2a80a3f;
/// Second mixing constant: added after the first xor-shift.
pub const SQ5_BIT_NOISE2: u32 = 0xa884f197;
/// Third mixing constant: multiplier after the second xor-shift.
pub const SQ5_BIT_NOISE3: u32 = 0x6C736F4B;
/// Fourth mixing constant: added after the third xor-shift.
pub const SQ5_BIT_NOISE4: u32 = 0xB79F3ABB;
/// Fifth mixing constant: multiplier after the fourth xor-shift.
pub const SQ5_BIT_NOISE5: u32 = 0x1b56c4f5;

/// Large prime multiplier for the second coordinate.
pub const PRIME1: i32 = 198491317;
/// Large prime multiplier for the third coordinate.
pub const PRIME2: i32 = 6542989;
/// Large prime multiplier for the fourth coordinate.
pub const PRIME3: i32 = 357239;

/// The avalanche hash: five rounds of (multiply or add a fixed constant,
/// then xor with a right shift of itself), all in wrapping 32-bit arithmetic.
pub open spec fn spec_mix(index: u32, seed: u32) -> u32 {
    let a = index.wrapping_mul(SQ5_BIT_NOISE1);
    let b = a.wrapping_add(seed);
    let c = b ^ (b >> 9);
    let d = c.wrapping_add(SQ5_BIT_NOISE2);
    let e = d ^ (d >> 11);
    let f = e.wrapping_mul(SQ5_BIT_NOISE3);
    let g = f ^ (f >> 13);
    let h = g.wrapping_add(SQ5_BIT_NOISE4);
    let i = h ^ (h >> 15);
    let j = i.wrapping_mul(SQ5_BIT_NOISE5);
    j ^ (j >> 17)
}

/// Maps one 32-bit input plus a 32-bit seed to one well-distributed 32-bit
/// output. Total and pure: no input is rejected, and identical inputs always
/// give identical outputs.
pub fn squirrel_noise5(index: u32, seed: u32) -> (r: u32)
    ensures
        r == spec_mix(index, seed),
{
    let mut mangled_bits = index;

    mangled_bits = mangled_bits.wrapping_mul(SQ5_BIT_NOISE1);
    mangled_bits = mangled_bits.wrapping_add(seed);
    mangled_bits = mangled_bits ^ (mangled_bits >> 9);
    mangled_bits = mangled_bits.wrapping_add(SQ5_BIT_NOISE2);
    mangled_bits = mangled_bits ^ (mangled_bits >> 11);
    mangled_bits = mangled_bits.wrapping_mul(SQ5_BIT_NOISE3);
    mangled_bits = mangled_bits ^ (mangled_bits >> 13);
    mangled_bits = mangled_bits.wrapping_add(SQ5_BIT_NOISE4);
    mangled_bits = mangled_bits ^ (mangled_bits >> 15);
    mangled_bits = mangled_bits.wrapping_mul(SQ5_BIT_NOISE5);
    mangled_bits = mangled_bits ^ (mangled_bits >> 17);

    mangled_bits
}

/// Folds two coordinates into one index: `x + y * PRIME1`, wrapping.
pub open spec fn spec_linearize_2d(x: i32, y: i32) -> i32 {
    x.wrapping_add(y.wrapping_mul(PRIME1))
}

/// Folds three coordinates into one index, wrapping.
pub open spec fn spec_linearize_3d(x: i32, y: i32, z: i32) -> i32 {
    x.wrapping_add(y.wrapping_mul(PRIME1)).wrapping_add(z.wrapping_mul(PRIME2))
}

/// Folds four coordinates into one index, wrapping.
pub open spec fn spec_linearize_4d(x: i32, y: i32, z: i32, w: i32) -> i32 {
    x.wrapping_add(y.wrapping_mul(PRIME1)).wrapping_add(z.wrapping_mul(PRIME2)).wrapping_add(
        w.wrapping_mul(PRIME3),
    )
}

pub(crate) fn linearize_2d(x: i32, y: i32) -> (r: i32)
    ensures
        r == spec_linearize_2d(x, y),
{
    x.wrapping_add(y.wrapping_mul(PRIME1))
}

pub(crate) fn linearize_3d(x: i32, y: i32, z: i32) -> (r: i32)
    ensures
        r == spec_linearize_3d(x, y, z),
{
    x.wrapping_add(y.wrapping_mul(PRIME1)).wrapping_add(z.wrapping_mul(PRIME2))
}

pub(crate) fn linearize_4d(x: i32, y: i32, z: i32, w: i32) -> (r: i32)
    ensures
        r == spec_linearize_4d(x, y, z, w),
{
    x.wrapping_add(y.wrapping_mul(PRIME1)).wrapping_add(z.wrapping_mul(PRIME2)).wrapping_add(
        w.wrapping_mul(PRIME3),
    )
}

} // verus!
