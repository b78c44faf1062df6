//! Typed derivers: pure functions from coordinates and a seed to unsigned and
//! signed 32- and 64-bit values, plus range-bounded and capped variants.
//!
//! Every deriver composes (linearize, mix, narrow or transform). The ranged
//! and capped forms scale a unit draw by the width of the range and truncate
//! toward zero, with the exact single-precision semantics modelled in
//! `rounding`.

use vstd::prelude::*;
use vstd::arithmetic::power2::lemma2_to64;
use crate::mix::{
    spec_linearize_2d, spec_linearize_3d, spec_linearize_4d, spec_mix, linearize_2d, linearize_3d,
    linearize_4d, squirrel_noise5,
};
use crate::rounding::{
    lemma_cap_map_le, lemma_unit_le, scaled_trunc, spec_cap_map, spec_unit_q56, unit_q56,
};

verus! {

/// The 1D unsigned draw: the mix of the index with the seed, both
/// reinterpreted as unsigned 32-bit values.
pub open spec fn spec_u32_1d(index: i32, seed: i32) -> u32 {
    spec_mix(index as u32, seed as u32)
}

/// The 1D 64-bit draw: a first 32-bit draw gives the high half, and a second
/// draw at the same index, reseeded with the first result, gives the low half.
pub open spec fn spec_u64_1d(index: i32, seed: i32) -> u64 {
    let a = spec_u32_1d(index, seed);
    let b = spec_u32_1d(index, a as i32);
    ((a as nat) * 0x100000000 + b as nat) as u64
}

/// Saturating narrowing of a mathematical value to `u32`, as the cast from
/// single precision behaves.
pub open spec fn sat_u32(n: nat) -> u32 {
    if n > 0xFFFFFFFF {
        0xFFFFFFFFu32
    } else {
        n as u32
    }
}

/// The capped draw: `(max as f32 * z) as u32` for the unit draw `z` of `u`.
pub open spec fn spec_u32_cap(max: u32, u: u32) -> u32 {
    sat_u32(spec_cap_map(max as nat, spec_unit_q56(u)))
}

/// The ranged draw: the capped draw over the width, offset by `min` with
/// wraparound.
pub open spec fn spec_u32_range(min: u32, max: u32, u: u32) -> u32 {
    min.wrapping_add(spec_u32_cap(max.wrapping_sub(min), u))
}

/// The signed offset `(d as f32 * z) as i32`: the magnitude of `d` is scaled
/// by the unit draw and truncated, the sign is reapplied, and the cast
/// saturates at the signed bounds.
pub open spec fn spec_i32_off(d: i32, u: u32) -> i32 {
    if d >= 0 {
        let m = spec_cap_map(d as nat, spec_unit_q56(u));
        if m > 0x7FFFFFFF {
            0x7FFFFFFFi32
        } else {
            m as i32
        }
    } else {
        let m = spec_cap_map((-(d as int)) as nat, spec_unit_q56(u));
        if m >= 0x80000000 {
            i32::MIN
        } else {
            (-(m as int)) as i32
        }
    }
}

/// The signed ranged draw, offset by `min` with wraparound.
pub open spec fn spec_i32_range(min: i32, max: i32, u: u32) -> i32 {
    min.wrapping_add(spec_i32_off(max.wrapping_sub(min), u))
}

/// Maps one 32-bit index plus a seed to a well-distributed unsigned value.
/// Total and pure: equal inputs always give equal outputs.
pub fn u32_1d(index: i32, seed: i32) -> (r: u32)
    ensures
        r == spec_u32_1d(index, seed),
{
    squirrel_noise5(
        #[verifier::truncate]
        (index as u32),
        #[verifier::truncate]
        (seed as u32),
    )
}

pub fn u32_2d(x: i32, y: i32, seed: i32) -> (r: u32)
    ensures
        r == spec_u32_1d(spec_linearize_2d(x, y), seed),
{
    u32_1d(linearize_2d(x, y), seed)
}

pub fn u32_3d(x: i32, y: i32, z: i32, seed: i32) -> (r: u32)
    ensures
        r == spec_u32_1d(spec_linearize_3d(x, y, z), seed),
{
    u32_1d(linearize_3d(x, y, z), seed)
}

pub fn u32_4d(x: i32, y: i32, z: i32, w: i32, seed: i32) -> (r: u32)
    ensures
        r == spec_u32_1d(spec_linearize_4d(x, y, z, w), seed),
{
    u32_1d(linearize_4d(x, y, z, w), seed)
}

/// Two chained 32-bit draws composed into one 64-bit value: the high 32 bits
/// are the first draw, the low 32 bits the draw reseeded with it.
pub fn u64_1d(index: i32, seed: i32) -> (r: u64)
    ensures
        r == spec_u64_1d(index, seed),
        r as nat / 0x100000000 == spec_u32_1d(index, seed) as nat,
        r as nat % 0x100000000 == spec_u32_1d(index, spec_u32_1d(index, seed) as i32) as nat,
{
    let fst = u32_1d(index, seed);
    let snd = u32_1d(
        index,
        #[verifier::truncate]
        (fst as i32),
    );
    let r: u64 = (fst as u64) * 0x100000000 + (snd as u64);
    proof {
        lemma_u64_halves(fst, snd);
    }
    r
}

/// The two 32-bit halves of `a * 2^32 + b` are recovered exactly by division
/// and remainder.
proof fn lemma_u64_halves(a: u32, b: u32)
    ensures
        ((a as nat) * 0x100000000 + b as nat) / 0x100000000 == a as nat,
        ((a as nat) * 0x100000000 + b as nat) % 0x100000000 == b as nat,
{
    vstd::arithmetic::div_mod::lemma_fundamental_div_mod_converse(
        ((a as nat) * 0x100000000 + b as nat) as int,
        0x100000000,
        a as int,
        b as int,
    );
}

/// The 64-bit draw splits into the 32-bit draw and the reseeded 32-bit draw:
/// its high half is the draw at the same index and seed, and its low half is
/// the draw at the same index seeded with that high half.
pub proof fn lemma_u64_composition(index: i32, seed: i32)
    ensures
        spec_u64_1d(index, seed) as nat / 0x100000000 == spec_u32_1d(index, seed) as nat,
        spec_u64_1d(index, seed) as nat % 0x100000000 == spec_u32_1d(
            index,
            spec_u32_1d(index, seed) as i32,
        ) as nat,
{
    let a = spec_u32_1d(index, seed);
    let b = spec_u32_1d(index, a as i32);
    lemma_u64_halves(a, b);
}

pub fn u64_2d(x: i32, y: i32, seed: i32) -> (r: u64)
    ensures
        r == spec_u64_1d(spec_linearize_2d(x, y), seed),
{
    u64_1d(linearize_2d(x, y), seed)
}

pub fn u64_3d(x: i32, y: i32, z: i32, seed: i32) -> (r: u64)
    ensures
        r == spec_u64_1d(spec_linearize_3d(x, y, z), seed),
{
    u64_1d(linearize_3d(x, y, z), seed)
}

pub fn u64_4d(x: i32, y: i32, z: i32, w: i32, seed: i32) -> (r: u64)
    ensures
        r == spec_u64_1d(spec_linearize_4d(x, y, z, w), seed),
{
    u64_1d(linearize_4d(x, y, z, w), seed)
}

/// The 32-bit draw reinterpreted as signed.
pub fn i32_1d(index: i32, seed: i32) -> (r: i32)
    ensures
        r == spec_u32_1d(index, seed) as i32,
{
    #[verifier::truncate]
    (u32_1d(index, seed) as i32)
}

pub fn i32_2d(x: i32, y: i32, seed: i32) -> (r: i32)
    ensures
        r == spec_u32_1d(spec_linearize_2d(x, y), seed) as i32,
{
    i32_1d(linearize_2d(x, y), seed)
}

pub fn i32_3d(x: i32, y: i32, z: i32, seed: i32) -> (r: i32)
    ensures
        r == spec_u32_1d(spec_linearize_3d(x, y, z), seed) as i32,
{
    i32_1d(linearize_3d(x, y, z), seed)
}

pub fn i32_4d(x: i32, y: i32, z: i32, w: i32, seed: i32) -> (r: i32)
    ensures
        r == spec_u32_1d(spec_linearize_4d(x, y, z, w), seed) as i32,
{
    i32_1d(linearize_4d(x, y, z, w), seed)
}

/// The 64-bit draw reinterpreted as signed.
pub fn i64_1d(index: i32, seed: i32) -> (r: i64)
    ensures
        r == spec_u64_1d(index, seed) as i64,
{
    #[verifier::truncate]
    (u64_1d(index, seed) as i64)
}

pub fn i64_2d(x: i32, y: i32, seed: i32) -> (r: i64)
    ensures
        r == spec_u64_1d(spec_linearize_2d(x, y), seed) as i64,
{
    i64_1d(linearize_2d(x, y), seed)
}

pub fn i64_3d(x: i32, y: i32, z: i32, seed: i32) -> (r: i64)
    ensures
        r == spec_u64_1d(spec_linearize_3d(x, y, z), seed) as i64,
{
    i64_1d(linearize_3d(x, y, z), seed)
}

pub fn i64_4d(x: i32, y: i32, z: i32, w: i32, seed: i32) -> (r: i64)
    ensures
        r == spec_u64_1d(spec_linearize_4d(x, y, z, w), seed) as i64,
{
    i64_1d(linearize_4d(x, y, z, w), seed)
}

/// Scales the cap by the unit draw of `u` and truncates, saturating as the
/// cast from single precision to `u32` does. For caps below 2^24 (exact in
/// single precision) the result never exceeds the cap.
pub(crate) fn cap_from_draw_u32(max: u32, u: u32) -> (r: u32)
    ensures
        r == spec_u32_cap(max, u),
        max < 0x1000000 ==> r <= max,
{
    let zq = unit_q56(u);
    let t: u128 = scaled_trunc(max as u64, zq);
    proof {
        if max < 0x1000000 {
            lemma2_to64();
            lemma_cap_map_le(max as nat, zq as nat);
        }
    }
    if t > 0xFFFFFFFF {
        0xFFFFFFFFu32
    } else {
        t as u32
    }
}

/// Computes `(max as f32 * z) as u32` at the given 1D coordinate.
pub fn u32_cap_1d(max: u32, index: i32, seed: i32) -> (r: u32)
    ensures
        r == spec_u32_cap(max, spec_u32_1d(index, seed)),
        max < 0x1000000 ==> r <= max,
{
    cap_from_draw_u32(max, u32_1d(index, seed))
}

pub fn u32_cap_2d(max: u32, x: i32, y: i32, seed: i32) -> (r: u32)
    ensures
        r == spec_u32_cap(max, spec_u32_1d(spec_linearize_2d(x, y), seed)),
        max < 0x1000000 ==> r <= max,
{
    u32_cap_1d(max, linearize_2d(x, y), seed)
}

pub fn u32_cap_3d(max: u32, x: i32, y: i32, z: i32, seed: i32) -> (r: u32)
    ensures
        r == spec_u32_cap(max, spec_u32_1d(spec_linearize_3d(x, y, z), seed)),
        max < 0x1000000 ==> r <= max,
{
    u32_cap_1d(max, linearize_3d(x, y, z), seed)
}

pub fn u32_cap_4d(max: u32, x: i32, y: i32, z: i32, w: i32, seed: i32) -> (r: u32)
    ensures
        r == spec_u32_cap(max, spec_u32_1d(spec_linearize_4d(x, y, z, w), seed)),
        max < 0x1000000 ==> r <= max,
{
    u32_cap_1d(max, linearize_4d(x, y, z, w), seed)
}

/// Computes `min + ((max - min) as f32 * z) as u32`, wrapping on the final
/// addition. For widths below 2^24 the result always lies in `[min, max]`.
pub fn u32_range_1d(min: u32, max: u32, index: i32, seed: i32) -> (r: u32)
    requires
        min <= max,
    ensures
        r == spec_u32_range(min, max, spec_u32_1d(index, seed)),
        max - min < 0x1000000 ==> min <= r <= max,
{
    let c = cap_from_draw_u32(max - min, u32_1d(index, seed));
    min.wrapping_add(c)
}

pub fn u32_range_2d(min: u32, max: u32, x: i32, y: i32, seed: i32) -> (r: u32)
    requires
        min <= max,
    ensures
        r == spec_u32_range(min, max, spec_u32_1d(spec_linearize_2d(x, y), seed)),
        max - min < 0x1000000 ==> min <= r <= max,
{
    u32_range_1d(min, max, linearize_2d(x, y), seed)
}

pub fn u32_range_3d(min: u32, max: u32, x: i32, y: i32, z: i32, seed: i32) -> (r: u32)
    requires
        min <= max,
    ensures
        r == spec_u32_range(min, max, spec_u32_1d(spec_linearize_3d(x, y, z), seed)),
        max - min < 0x1000000 ==> min <= r <= max,
{
    u32_range_1d(min, max, linearize_3d(x, y, z), seed)
}

pub fn u32_range_4d(min: u32, max: u32, x: i32, y: i32, z: i32, w: i32, seed: i32) -> (r: u32)
    requires
        min <= max,
    ensures
        r == spec_u32_range(min, max, spec_u32_1d(spec_linearize_4d(x, y, z, w), seed)),
        max - min < 0x1000000 ==> min <= r <= max,
{
    u32_range_1d(min, max, linearize_4d(x, y, z, w), seed)
}

/// The range law: for every width below 2^24 and every draw, the ranged
/// value lies between its bounds.
pub proof fn lemma_range_law(min: u32, max: u32, u: u32)
    requires
        min <= max,
        max - min < 0x1000000,
    ensures
        min <= spec_u32_range(min, max, u) <= max,
{
    lemma2_to64();
    lemma_unit_le(u);
    lemma_cap_map_le((max - min) as nat, spec_unit_q56(u));
}

/// Computes `(d as f32 * z) as i32`: sign and magnitude, saturating.
pub(crate) fn off_from_draw_i32(d: i32, u: u32) -> (r: i32)
    ensures
        r == spec_i32_off(d, u),
        0 <= d < 0x1000000 ==> 0 <= r <= d,
{
    let zq = unit_q56(u);
    if d >= 0 {
        let t: u128 = scaled_trunc(d as u64, zq);
        proof {
            if d < 0x1000000 {
                lemma2_to64();
                lemma_cap_map_le(d as nat, zq as nat);
            }
        }
        if t > 0x7FFFFFFF {
            0x7FFFFFFFi32
        } else {
            t as i32
        }
    } else {
        let mag: i64 = -(d as i64);
        let t: u128 = scaled_trunc(
            #[verifier::truncate]
            (mag as u64),
            zq,
        );
        if t >= 0x80000000 {
            i32::MIN
        } else {
            -(t as i32)
        }
    }
}

/// Computes `(max as f32 * z) as i32` at the given 1D coordinate; a negative
/// cap scales toward the cap from zero.
pub fn i32_cap_1d(max: i32, index: i32, seed: i32) -> (r: i32)
    ensures
        r == spec_i32_off(max, spec_u32_1d(index, seed)),
        0 <= max < 0x1000000 ==> 0 <= r <= max,
{
    off_from_draw_i32(max, u32_1d(index, seed))
}

pub fn i32_cap_2d(max: i32, x: i32, y: i32, seed: i32) -> (r: i32)
    ensures
        r == spec_i32_off(max, spec_u32_1d(spec_linearize_2d(x, y), seed)),
        0 <= max < 0x1000000 ==> 0 <= r <= max,
{
    i32_cap_1d(max, linearize_2d(x, y), seed)
}

pub fn i32_cap_3d(max: i32, x: i32, y: i32, z: i32, seed: i32) -> (r: i32)
    ensures
        r == spec_i32_off(max, spec_u32_1d(spec_linearize_3d(x, y, z), seed)),
        0 <= max < 0x1000000 ==> 0 <= r <= max,
{
    i32_cap_1d(max, linearize_3d(x, y, z), seed)
}

pub fn i32_cap_4d(max: i32, x: i32, y: i32, z: i32, w: i32, seed: i32) -> (r: i32)
    ensures
        r == spec_i32_off(max, spec_u32_1d(spec_linearize_4d(x, y, z, w), seed)),
        0 <= max < 0x1000000 ==> 0 <= r <= max,
{
    i32_cap_1d(max, linearize_4d(x, y, z, w), seed)
}

/// Computes `min + ((max - min) as f32 * z) as i32`, with the width and the
/// final addition wrapping. For widths below 2^24 the result always lies in
/// `[min, max]`.
pub fn i32_range_1d(min: i32, max: i32, index: i32, seed: i32) -> (r: i32)
    requires
        min <= max,
    ensures
        r == spec_i32_range(min, max, spec_u32_1d(index, seed)),
        max - min < 0x1000000 ==> min <= r <= max,
{
    let off = off_from_draw_i32(max.wrapping_sub(min), u32_1d(index, seed));
    min.wrapping_add(off)
}

pub fn i32_range_2d(min: i32, max: i32, x: i32, y: i32, seed: i32) -> (r: i32)
    requires
        min <= max,
    ensures
        r == spec_i32_range(min, max, spec_u32_1d(spec_linearize_2d(x, y), seed)),
        max - min < 0x1000000 ==> min <= r <= max,
{
    i32_range_1d(min, max, linearize_2d(x, y), seed)
}

pub fn i32_range_3d(min: i32, max: i32, x: i32, y: i32, z: i32, seed: i32) -> (r: i32)
    requires
        min <= max,
    ensures
        r == spec_i32_range(min, max, spec_u32_1d(spec_linearize_3d(x, y, z), seed)),
        max - min < 0x1000000 ==> min <= r <= max,
{
    i32_range_1d(min, max, linearize_3d(x, y, z), seed)
}

pub fn i32_range_4d(min: i32, max: i32, x: i32, y: i32, z: i32, w: i32, seed: i32) -> (r: i32)
    requires
        min <= max,
    ensures
        r == spec_i32_range(min, max, spec_u32_1d(spec_linearize_4d(x, y, z, w), seed)),
        max - min < 0x1000000 ==> min <= r <= max,
{
    i32_range_1d(min, max, linearize_4d(x, y, z, w), seed)
}

} // verus!
