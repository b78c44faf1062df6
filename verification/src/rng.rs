//! The sequential generator: a (seed, position) pair that streams draws by
//! computing the 1D derivers at the current position and then advancing the
//! position by exactly one, whatever the width of the draw.

use vstd::prelude::*;
use vstd::arithmetic::power2::{lemma2_to64, lemma_pow2_adds, lemma_pow2_pos, pow2};
use vstd::pervasive::VecAdditionalExecFns;
use rand::RngExt;
use crate::noise::{
    spec_i32_off, spec_i32_range, spec_u32_1d, spec_u32_cap, spec_u32_range, spec_u64_1d,
    cap_from_draw_u32, off_from_draw_i32, u32_1d, u64_1d,
};
use crate::rounding::{lemma_cap_map_le, scaled_trunc, spec_cap_map, spec_unit_q56, unit_q56};

verus! {

/// A streaming interface over the stateless derivers: `seed` selects the
/// noise field and `index` is the position of the next draw. Both fields are
/// plain data; the pair may be copied or rebuilt freely.
#[derive(Clone, PartialEq, Eq, PartialOrd, Ord, Structural, Debug)]
pub struct SquirrelRng {
    pub seed: i32,
    pub index: i32,
}

/// The generator one draw later: the position advances by one, wrapping.
pub open spec fn spec_step(g: SquirrelRng) -> SquirrelRng {
    SquirrelRng { index: g.index.wrapping_add(1), ..g }
}

/// The unsigned 32-bit value that the next draw returns.
pub open spec fn spec_draw_u32(g: SquirrelRng) -> u32 {
    spec_u32_1d(g.index, g.seed)
}

/// The generator after `goto`: the position is set absolutely.
pub open spec fn spec_goto(g: SquirrelRng, index: i32) -> SquirrelRng {
    SquirrelRng { index, ..g }
}

/// A generator built from a seed and a starting position.
pub open spec fn spec_from(seed: i32, index: i32) -> SquirrelRng {
    SquirrelRng { seed, index }
}

/// The position after `n` single draws.
pub open spec fn spec_advanced(index: i32, n: nat) -> i32
    decreases n,
{
    if n == 0 {
        index
    } else {
        spec_advanced(index, (n - 1) as nat).wrapping_add(1)
    }
}

/// Wrapping additions of positions accumulate: jumping by `a` and then by `b`
/// lands where one jump by `a + b` (wrapping) does.
pub proof fn lemma_jumps_accumulate(index: i32, a: i32, b: i32)
    ensures
        index.wrapping_add(a).wrapping_add(b) == index.wrapping_add(a.wrapping_add(b)),
{
}

/// After `n` draws the position equals the start plus `n`, wrapping: the
/// recursive advance is one wrapping addition.
pub proof fn lemma_advance_is_wrapping_add(index: i32, n: nat)
    requires
        n < 0x80000000,
    ensures
        spec_advanced(index, n) == index.wrapping_add(n as i32),
    decreases n,
{
    if n == 0 {
        assert(index.wrapping_add(0) == index);
    } else {
        lemma_advance_is_wrapping_add(index, (n - 1) as nat);
        lemma_jumps_accumulate(index, (n - 1) as i32, 1);
        assert(((n - 1) as i32).wrapping_add(1) == n as i32);
    }
}

/// Setting the position and drawing equals drawing from a fresh generator
/// built at that position with the same seed: both the value drawn and the
/// position afterwards agree.
pub proof fn lemma_goto_matches_fresh(g: SquirrelRng, k: i32)
    ensures
        spec_draw_u32(spec_goto(g, k)) == spec_draw_u32(spec_from(g.seed, k)),
        spec_step(spec_goto(g, k)).index == spec_step(spec_from(g.seed, k)).index,
{
}

/// Relies on rand::rng and RngExt::random: a freshly drawn 32-bit seed from
/// the thread-local generator. Nothing is promised of the value.
#[verifier::external_body]
fn entropy_seed() -> i32 {
    rand::rng().random()
}

impl Default for SquirrelRng {
    /// The zero generator: seed 0, position 0.
    fn default() -> (r: Self)
        ensures
            r == spec_from(0i32, 0i32),
    {
        SquirrelRng { seed: 0, index: 0 }
    }
}

impl SquirrelRng {
    /// A generator over a freshly drawn random seed, starting at position 0.
    pub fn new() -> (r: Self)
        ensures
            r.index == 0,
    {
        SquirrelRng { seed: entropy_seed(), index: 0 }
    }

    /// A generator over the given seed, starting at position 0.
    pub fn with_seed(seed: i32) -> (r: Self)
        ensures
            r == spec_from(seed, 0i32),
    {
        SquirrelRng { seed, index: 0 }
    }

    /// The same generator moved to the given position.
    pub fn with_position(self, index: i32) -> (r: Self)
        ensures
            r == spec_from(self.seed, index),
    {
        SquirrelRng { index, ..self }
    }

    /// A generator over the given seed at the given position.
    pub fn from_pos_and_seed(seed: i32, index: i32) -> (r: Self)
        ensures
            r == spec_from(seed, index),
    {
        SquirrelRng { seed, index }
    }

    /// Draws the unsigned 32-bit value at the current position and advances
    /// the position by one.
    pub fn u32(&mut self) -> (r: u32)
        ensures
            r == spec_draw_u32(*old(self)),
            *final(self) == spec_step(*old(self)),
    {
        let res = u32_1d(self.index, self.seed);
        self.index = self.index.wrapping_add(1);
        res
    }

    /// Draws a value in `[min, max]` (below `max` except at the unit
    /// boundary) and advances the position by one.
    pub fn u32_range(&mut self, min: u32, max: u32) -> (r: u32)
        requires
            min <= max,
        ensures
            r == spec_u32_range(min, max, spec_draw_u32(*old(self))),
            max - min < 0x1000000 ==> min <= r <= max,
            *final(self) == spec_step(*old(self)),
    {
        let res = crate::noise::u32_range_1d(min, max, self.index, self.seed);
        self.index = self.index.wrapping_add(1);
        res
    }

    /// Draws a value of at most `max` and advances the position by one.
    pub fn u32_cap(&mut self, max: u32) -> (r: u32)
        ensures
            r == spec_u32_cap(max, spec_draw_u32(*old(self))),
            max < 0x1000000 ==> r <= max,
            *final(self) == spec_step(*old(self)),
    {
        let res = cap_from_draw_u32(max, u32_1d(self.index, self.seed));
        self.index = self.index.wrapping_add(1);
        res
    }

    /// Draws a 64-bit value (two chained 32-bit mixes at the same position)
    /// and advances the position by one, not two.
    pub fn u64(&mut self) -> (r: u64)
        ensures
            r == spec_u64_1d(old(self).index, old(self).seed),
            *final(self) == spec_step(*old(self)),
    {
        let res = u64_1d(self.index, self.seed);
        self.index = self.index.wrapping_add(1);
        res
    }

    /// Draws the signed reinterpretation of the 32-bit value and advances the
    /// position by one.
    pub fn i32(&mut self) -> (r: i32)
        ensures
            r == spec_draw_u32(*old(self)) as i32,
            *final(self) == spec_step(*old(self)),
    {
        let res = crate::noise::i32_1d(self.index, self.seed);
        self.index = self.index.wrapping_add(1);
        res
    }

    /// Draws a signed value in `[min, max]` for narrow ranges and advances
    /// the position by one.
    pub fn i32_range(&mut self, min: i32, max: i32) -> (r: i32)
        requires
            min <= max,
        ensures
            r == spec_i32_range(min, max, spec_draw_u32(*old(self))),
            max - min < 0x1000000 ==> min <= r <= max,
            *final(self) == spec_step(*old(self)),
    {
        let res = crate::noise::i32_range_1d(min, max, self.index, self.seed);
        self.index = self.index.wrapping_add(1);
        res
    }

    /// Draws a signed value scaled toward `max` from zero and advances the
    /// position by one.
    pub fn i32_cap(&mut self, max: i32) -> (r: i32)
        ensures
            r == spec_i32_off(max, spec_draw_u32(*old(self))),
            0 <= max < 0x1000000 ==> 0 <= r <= max,
            *final(self) == spec_step(*old(self)),
    {
        let res = off_from_draw_i32(max, u32_1d(self.index, self.seed));
        self.index = self.index.wrapping_add(1);
        res
    }

    /// Draws the signed reinterpretation of the 64-bit value and advances the
    /// position by one.
    pub fn i64(&mut self) -> (r: i64)
        ensures
            r == spec_u64_1d(old(self).index, old(self).seed) as i64,
            *final(self) == spec_step(*old(self)),
    {
        let res = crate::noise::i64_1d(self.index, self.seed);
        self.index = self.index.wrapping_add(1);
        res
    }

    /// Draws a word-sized value of at most `max` and advances the position by
    /// one.
    pub fn usize(&mut self, max: usize) -> (r: usize)
        ensures
            r == spec_usize_cap(max, spec_draw_u32(*old(self))),
            max < 0x1000000 ==> r <= max,
            *final(self) == spec_step(*old(self)),
    {
        let u = u32_1d(self.index, self.seed);
        self.index = self.index.wrapping_add(1);
        let zq = unit_q56(u);
        let t: u128 = scaled_trunc(max as u64, zq);
        proof {
            if max < 0x1000000 {
                vstd::arithmetic::power2::lemma2_to64();
                lemma_cap_map_le(max as nat, zq as nat);
            }
        }
        if t > usize::MAX as u128 {
            usize::MAX
        } else {
            t as usize
        }
    }

    /// Draws a word-sized value in `[min, max]` for narrow ranges, wrapping
    /// on the final addition, and advances the position by one.
    pub fn usize_range(&mut self, min: usize, max: usize) -> (r: usize)
        requires
            min <= max,
        ensures
            r == min.wrapping_add(
                spec_usize_cap((max - min) as usize, spec_draw_u32(*old(self))),
            ),
            max - min < 0x1000000 ==> min <= r <= max,
            *final(self) == spec_step(*old(self)),
    {
        let c = self.usize(max - min);
        min.wrapping_add(c)
    }

    /// Draws a full-range byte (the unit draw scaled by 256, saturating) and
    /// advances the position by one.
    pub fn u8(&mut self) -> (r: u8)
        ensures
            r == spec_u8_cap_map(256nat, spec_draw_u32(*old(self))),
            *final(self) == spec_step(*old(self)),
    {
        let u = u32_1d(self.index, self.seed);
        self.index = self.index.wrapping_add(1);
        let zq = unit_q56(u);
        let t: u128 = scaled_trunc(256u64, zq);
        if t > 255 {
            255u8
        } else {
            t as u8
        }
    }

    /// Draws a byte of at most `max` and advances the position by one.
    pub fn u8_cap(&mut self, max: u8) -> (r: u8)
        ensures
            r == spec_u8_cap_map(max as nat, spec_draw_u32(*old(self))),
            r <= max,
            *final(self) == spec_step(*old(self)),
    {
        let u = u32_1d(self.index, self.seed);
        self.index = self.index.wrapping_add(1);
        let zq = unit_q56(u);
        let t: u128 = scaled_trunc(max as u64, zq);
        proof {
            vstd::arithmetic::power2::lemma2_to64();
            lemma_cap_map_le(max as nat, zq as nat);
        }
        if t > 255 {
            255u8
        } else {
            t as u8
        }
    }

    /// Draws a byte in `[min, max]` and advances the position by one.
    pub fn u8_range(&mut self, min: u8, max: u8) -> (r: u8)
        requires
            min <= max,
        ensures
            r == min + spec_u8_cap_map((max - min) as nat, spec_draw_u32(*old(self))),
            min <= r <= max,
            *final(self) == spec_step(*old(self)),
    {
        let c = self.u8_cap(max - min);
        min + c
    }

    /// Draws a boolean: true exactly when the signed draw is negative (the
    /// high bit of the mix is set), and advances the position by one.
    pub fn bool(&mut self) -> (r: bool)
        ensures
            r == ((spec_draw_u32(*old(self)) as i32) < 0),
            *final(self) == spec_step(*old(self)),
    {
        self.i32() < 0
    }

    /// Adds `amount` to the position, wrapping; the seed is untouched.
    pub fn jump(&mut self, amount: i32)
        ensures
            final(self).index == old(self).index.wrapping_add(amount),
            final(self).seed == old(self).seed,
    {
        self.index = self.index.wrapping_add(amount);
    }

    /// Sets the position absolutely; the seed is untouched.
    pub fn goto(&mut self, index: i32)
        ensures
            *final(self) == spec_goto(*old(self), index),
    {
        self.index = index;
    }

    /// Replaces the seed; the position is untouched.
    pub fn seed(&mut self, seed: i32)
        ensures
            final(self).seed == seed,
            final(self).index == old(self).index,
    {
        self.seed = seed;
    }
}

/// Relies on slice::swap: exchanges the elements at `i` and `j` in place.
#[verifier::external_body]
fn vec_swap<T>(v: &mut Vec<T>, i: usize, j: usize)
    requires
        i < old(v).len(),
        j < old(v).len(),
    ensures
        final(v)@ == old(v)@.update(i as int, old(v)@[j as int]).update(j as int, old(v)@[i as int]),
{
    v.swap(i, j);
}

/// Exchanging two positions of a sequence keeps its multiset of elements.
proof fn lemma_swap_keeps_multiset<T>(s: Seq<T>, i: int, j: int)
    requires
        0 <= i < s.len(),
        0 <= j < s.len(),
    ensures
        s.update(i, s[j]).update(j, s[i]).to_multiset() == s.to_multiset(),
{
    broadcast use vstd::seq_lib::group_to_multiset_ensures;

    if i == j {
        assert(s.update(i, s[j]).update(j, s[i]) =~= s);
    } else {
        let s1 = s.update(i, s[j]);
        let s2 = s1.update(j, s[i]);
        assert(s1[j] == s[j]);
        assert(s.contains(s[i]));
        assert(s1.contains(s[j]));
        assert(s1.to_multiset() == s.to_multiset().insert(s[j]).remove(s[i]));
        assert(s2.to_multiset() == s1.to_multiset().insert(s[i]).remove(s[j]));
        assert(s2.to_multiset() =~= s.to_multiset());
    }
}

/// The sequence after the first `k` steps of the shuffle walk over `s`:
/// step `n` (counting from one) swaps position `n` with the word draw capped
/// at `n + 1`, taken at the starting position advanced `n - 1` times and
/// clamped to `n` (a unit draw of exactly one maps to `n + 1`, which the
/// in-place walk keeps in bounds by clamping).
pub open spec fn spec_shuffle_upto<T>(s: Seq<T>, seed: i32, index: i32, k: nat) -> Seq<T>
    decreases k,
{
    if k == 0 {
        s
    } else {
        let prev = spec_shuffle_upto(s, seed, index, (k - 1) as nat);
        let u = spec_u32_1d(spec_advanced(index, (k - 1) as nat), seed);
        let raw = spec_usize_cap((k + 1) as usize, u) as int;
        let j = if raw > k as int {
            k as int
        } else {
            raw
        };
        prev.update(k as int, prev[j]).update(j, prev[k as int])
    }
}

impl SquirrelRng {
    /// In-place Fisher-Yates: walks the positions upward, swapping each with
    /// a drawn position at or below it, one draw per step. The result is
    /// exactly the folded swap walk `spec_shuffle_upto`; in particular it
    /// holds the same elements with the same multiplicities, and a sequence
    /// of at most one element is left unchanged.
    #[verifier::rlimit(60)]
    pub fn shuffle<T>(&mut self, v: &mut Vec<T>)
        ensures
            final(v)@ == spec_shuffle_upto(
                old(v)@,
                old(self).seed,
                old(self).index,
                if old(v)@.len() == 0 {
                    0nat
                } else {
                    (old(v)@.len() - 1) as nat
                },
            ),
            final(v)@.to_multiset() == old(v)@.to_multiset(),
            final(v)@.len() == old(v)@.len(),
            old(v)@.len() <= 1 ==> final(v)@ == old(v)@,
            final(self).seed == old(self).seed,
            final(self).index == if old(v)@.len() <= 1 {
                old(self).index
            } else {
                spec_advanced(old(self).index, (old(v)@.len() - 1) as nat)
            },
            old(v)@.len() < 0x80000000 ==> final(self).index == old(self).index.wrapping_add(
                if old(v)@.len() <= 1 {
                    0i32
                } else {
                    (old(v)@.len() - 1) as i32
                },
            ),
    {
        let len = v.len();
        let mut n: usize = 1;
        while n < len
            invariant
                1 <= n,
                len == v@.len(),
                len == old(v)@.len(),
                v@ == spec_shuffle_upto(old(v)@, old(self).seed, old(self).index, (n - 1) as nat),
                v@.to_multiset() == old(v)@.to_multiset(),
                len <= 1 ==> v@ == old(v)@,
                self.seed == old(self).seed,
                n <= len || n == 1,
                self.index == spec_advanced(old(self).index, (n - 1) as nat),
            decreases len - n,
        {
            let j = self.usize(n + 1);
            let j = if j > n {
                n
            } else {
                j
            };
            let ghost before = v@;
            vec_swap(v, n, j);
            proof {
                lemma_swap_keeps_multiset(before, n as int, j as int);
                assert(spec_shuffle_upto(old(v)@, old(self).seed, old(self).index, n as nat)
                    == before.update(n as int, before[j as int]).update(j as int, before[n as int]));
            }
            n = n + 1;
        }
        proof {
            if 1 < old(v)@.len() < 0x80000000 {
                lemma_advance_is_wrapping_add(old(self).index, (old(v)@.len() - 1) as nat);
            }
        }
    }
}

/// The little-endian byte at offset `k` of a 64-bit value.
pub open spec fn spec_le_byte(v: u64, k: int) -> u8 {
    (((v as nat) / pow2((8 * k) as nat)) % 256) as u8
}

/// What filling a buffer of `len` bytes writes at offset `i`, starting from
/// the given seed and position: full 8-byte chunks take the little-endian
/// bytes of successive 64-bit draws; a tail of 5 to 7 bytes takes the leading
/// bytes of one more 64-bit draw, and a tail of 1 to 4 bytes the leading
/// bytes of one 32-bit draw.
pub open spec fn spec_fill_byte(seed: i32, index: i32, len: nat, i: int) -> u8 {
    if i / 8 < len as int / 8 {
        spec_le_byte(spec_u64_1d(spec_advanced(index, (i / 8) as nat), seed), i % 8)
    } else if len % 8 > 4 {
        spec_le_byte(spec_u64_1d(spec_advanced(index, len / 8), seed), i % 8)
    } else {
        spec_le_byte(spec_u32_1d(spec_advanced(index, len / 8), seed) as u64, i % 8)
    }
}

/// Writes the low `count` little-endian bytes of `d` at `start`.
fn write_le_bytes(v: &mut Vec<u8>, start: usize, count: usize, d: u64)
    requires
        start + count <= old(v).len(),
        count <= 8,
    ensures
        final(v)@.len() == old(v)@.len(),
        forall|i: int|
            0 <= i < old(v)@.len() ==> final(v)@[i] == if start <= i < start + count {
                spec_le_byte(d, i - start)
            } else {
                old(v)@[i]
            },
{
    let mut k: usize = 0;
    let mut rest: u64 = d;
    proof {
        lemma2_to64();
        vstd::arithmetic::div_mod::lemma_div_basics_2(d as int);
        assert((d as nat) / pow2(0) == d as nat);
    }
    while k < count
        invariant
            k <= count,
            count <= 8,
            start + count <= v.len(),
            v@.len() == old(v)@.len(),
            rest == (d as nat) / pow2((8 * k) as nat),
            forall|i: int|
                0 <= i < v@.len() ==> v@[i] == if start <= i < start + k {
                    spec_le_byte(d, i - start)
                } else {
                    old(v)@[i]
                },
        decreases count - k,
    {
        let b: u8 = (rest % 256) as u8;
        v.set(start + k, b);
        proof {
            assert(b == spec_le_byte(d, k as int));
            lemma_pow2_adds((8 * k) as nat, 8);
            lemma_pow2_pos((8 * k) as nat);
            lemma2_to64();
            vstd::arithmetic::div_mod::lemma_div_denominator(
                d as int,
                pow2((8 * k) as nat) as int,
                256,
            );
            assert((d as nat) / pow2((8 * (k + 1)) as nat) == rest as nat / 256);
        }
        rest = rest / 256;
        k = k + 1;
    }
}

impl SquirrelRng {
    /// Fills the buffer from successive draws, as a streaming consumer of the
    /// generator does: whole 8-byte chunks from 64-bit draws, then a partial
    /// chunk of 5-7 bytes from a 64-bit draw or of 1-4 bytes from a 32-bit
    /// draw, each chunk advancing the position by one.
    pub fn fill_bytes(&mut self, v: &mut Vec<u8>)
        ensures
            final(v)@.len() == old(v)@.len(),
            forall|i: int|
                0 <= i < old(v)@.len() ==> final(v)@[i] == spec_fill_byte(
                    old(self).seed,
                    old(self).index,
                    old(v)@.len(),
                    i,
                ),
            final(self).seed == old(self).seed,
            final(self).index == spec_advanced(
                old(self).index,
                old(v)@.len() / 8 + if old(v)@.len() % 8 == 0 {
                    0nat
                } else {
                    1nat
                },
            ),
    {
        let ghost seed0 = self.seed;
        let ghost idx0 = self.index;
        let ghost len_n = v@.len();
        let len = v.len();
        let full = len / 8;
        proof {
            vstd::arithmetic::div_mod::lemma_fundamental_div_mod(len as int, 8);
        }
        let mut c: usize = 0;
        while c < full
            invariant
                c <= full,
                full == len / 8,
                len == len_n,
                v@.len() == len_n,
                self.seed == seed0,
                self.index == spec_advanced(idx0, c as nat),
                8 * full <= len,
                forall|i: int| 0 <= i < 8 * c ==> v@[i] == spec_fill_byte(seed0, idx0, len_n, i),
            decreases full - c,
        {
            let d = self.u64();
            proof {
                assert(self.index == spec_advanced(idx0, (c + 1) as nat));
            }
            write_le_bytes(v, 8 * c, 8, d);
            proof {
                assert forall|i: int| 0 <= i < 8 * (c + 1) implies v@[i] == spec_fill_byte(
                    seed0,
                    idx0,
                    len_n,
                    i,
                ) by {
                    if 8 * c <= i {
                        vstd::arithmetic::div_mod::lemma_fundamental_div_mod_converse(
                            i,
                            8,
                            c as int,
                            i - 8 * c,
                        );
                    }
                }
            }
            c = c + 1;
        }
        let m = len % 8;
        proof {
            assert(8 * full + m == len);
        }
        if m > 4 {
            let d = self.u64();
            write_le_bytes(v, 8 * full, m, d);
            proof {
                assert forall|i: int| 0 <= i < len_n implies v@[i] == spec_fill_byte(
                    seed0,
                    idx0,
                    len_n,
                    i,
                ) by {
                    if 8 * full <= i {
                        vstd::arithmetic::div_mod::lemma_fundamental_div_mod_converse(
                            i,
                            8,
                            full as int,
                            i - 8 * full,
                        );
                    }
                }
            }
        } else if m > 0 {
            let d = self.u32();
            write_le_bytes(v, 8 * full, m, d as u64);
            proof {
                assert forall|i: int| 0 <= i < len_n implies v@[i] == spec_fill_byte(
                    seed0,
                    idx0,
                    len_n,
                    i,
                ) by {
                    if 8 * full <= i {
                        vstd::arithmetic::div_mod::lemma_fundamental_div_mod_converse(
                            i,
                            8,
                            full as int,
                            i - 8 * full,
                        );
                    }
                }
            }
        }
    }
}

/// Saturating narrowing of the capped draw to `usize`.
pub open spec fn spec_usize_cap(max: usize, u: u32) -> usize {
    let m = spec_cap_map(max as nat, spec_unit_q56(u));
    if m > usize::MAX {
        usize::MAX
    } else {
        m as usize
    }
}

/// Saturating narrowing of the capped draw to a byte.
pub open spec fn spec_u8_cap_map(cap: nat, u: u32) -> u8 {
    let m = spec_cap_map(cap, spec_unit_q56(u));
    if m > 255 {
        255u8
    } else {
        m as u8
    }
}

} // verus!
