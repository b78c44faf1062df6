//! Integer model of the single-precision arithmetic that the ranged derivers
//! are defined by.
//!
//! The ranged and capped derivers are specified as `min + (max - min) * z`
//! truncated toward zero, where `z` is the draw divided by the largest 32-bit
//! value, computed in IEEE-754 double precision, narrowed to single precision,
//! and multiplied in single precision. Every value that arises on that path is
//! either zero or lies in [2^-56, 2^64] with a significand of at most 24 bits,
//! so it is an exact integer multiple of 2^-56. This module therefore models
//! the whole pipeline exactly over the integers, carrying values scaled by
//! 2^56 ("Q56"), with round-to-nearest, ties to even, written out explicitly.

use vstd::prelude::*;
use vstd::arithmetic::power2::{
    lemma2_to64, lemma2_to64_rest, lemma_pow2_adds, lemma_pow2_pos, lemma_pow2_strictly_increases,
    pow2,
};
use vstd::arithmetic::div_mod::{
    lemma_div_is_ordered, lemma_div_is_ordered_by_denominator, lemma_div_multiples_vanish,
    lemma_fundamental_div_mod, lemma_fundamental_div_mod_converse,
};

verus! {

/// Floor of the base-2 logarithm of a positive integer.
pub open spec fn flog2(n: nat) -> nat
    decreases n,
{
    if n < 2 {
        0
    } else {
        1 + flog2(n / 2)
    }
}

/// The defining property of `flog2`.
pub proof fn lemma_flog2_bounds(n: nat)
    requires
        n >= 1,
    ensures
        pow2(flog2(n)) <= n < pow2(flog2(n) + 1),
    decreases n,
{
    lemma2_to64();
    if n < 2 {
    } else {
        lemma_flog2_bounds(n / 2);
        assert(pow2(flog2(n)) == 2 * pow2(flog2(n / 2))) by {
            lemma_pow2_adds(1, flog2(n / 2));
        }
        assert(pow2(flog2(n) + 1) == 2 * pow2(flog2(n / 2) + 1)) by {
            lemma_pow2_adds(1, flog2(n / 2) + 1);
        }
        assert(2 * (n / 2) <= n < 2 * (n / 2) + 2);
    }
}

/// `flog2` is pinned down by the two-sided power bound.
pub proof fn lemma_flog2_unique(n: nat, k: nat)
    requires
        pow2(k) <= n < pow2(k + 1),
    ensures
        flog2(n) == k,
{
    lemma_pow2_pos(k);
    lemma_flog2_bounds(n);
    if flog2(n) < k {
        if flog2(n) + 1 < k {
            lemma_pow2_strictly_increases(flog2(n) + 1, k);
        }
        assert(pow2(flog2(n) + 1) <= pow2(k));
    }
    if flog2(n) > k {
        if k + 1 < flog2(n) {
            lemma_pow2_strictly_increases(k + 1, flog2(n));
        }
        assert(pow2(k + 1) <= pow2(flog2(n)));
    }
}

/// Scaling by a power of two shifts the floor logarithm.
pub proof fn lemma_flog2_mul_pow2(a: nat, k: nat)
    requires
        a >= 1,
    ensures
        flog2(a * pow2(k)) == flog2(a) + k,
{
    lemma_flog2_bounds(a);
    lemma_pow2_pos(k);
    assert(pow2(flog2(a)) * pow2(k) <= a * pow2(k)) by (nonlinear_arith)
        requires
            pow2(flog2(a)) <= a,
            pow2(k) >= 1,
    ;
    assert(a * pow2(k) < pow2(flog2(a) + 1) * pow2(k)) by (nonlinear_arith)
        requires
            a < pow2(flog2(a) + 1),
            pow2(k) >= 1,
    ;
    lemma_pow2_adds(flog2(a), k);
    lemma_pow2_adds(flog2(a) + 1, k);
    lemma_flog2_unique(a * pow2(k), flog2(a) + k);
}

/// Rounds `n` to the nearest multiple of `pow2(s)`, ties to even.
pub open spec fn rne_at(n: nat, s: nat) -> nat {
    let p = pow2(s);
    let q = n / p;
    let low = n % p;
    if 2 * low > p || (2 * low == p && q % 2 == 1) {
        (q + 1) * p
    } else {
        q * p
    }
}

/// The value of `n` rounded to at most 24 significant bits, ties to even:
/// the exact value of `n` converted to single precision.
pub open spec fn rnd24(n: nat) -> nat {
    if n < pow2(24) {
        n
    } else {
        rne_at(n, (flog2(n) - 23) as nat)
    }
}

/// A multiple of the granule rounds to itself.
pub proof fn lemma_rne_exact(n: nat, s: nat)
    requires
        n % pow2(s) == 0,
    ensures
        rne_at(n, s) == n,
{
    let p = pow2(s);
    lemma_pow2_pos(s);
    lemma_fundamental_div_mod(n as int, p as int);
    assert(n == p * (n / p) + n % p);
    assert(n == (n / p) * p) by (nonlinear_arith)
        requires
            n == p * (n / p) + n % p,
            n % p == 0,
    ;
    assert(!(2 * (n % p) > p));
    assert(!(2 * (n % p) == p));
}

/// Rounding never crosses a multiple of the granule that bounds the input.
pub proof fn lemma_rne_le_multiple(n: nat, s: nat, m: nat)
    requires
        n <= m,
        m % pow2(s) == 0,
    ensures
        rne_at(n, s) <= m,
{
    let p = pow2(s);
    lemma_pow2_pos(s);
    let q = n / p;
    let low = n % p;
    lemma_fundamental_div_mod(n as int, p as int);
    lemma_fundamental_div_mod(m as int, p as int);
    let qm = m / p;
    assert(m == qm * p);
    if q >= qm {
        // then low == n - q*p <= m - qm*p == 0 is only possible when q == qm
        assert(q * p <= n) by (nonlinear_arith)
            requires
                n == q * p + low,
                low >= 0,
        ;
        assert(q <= qm) by (nonlinear_arith)
            requires
                q * p <= n,
                n <= m,
                m == qm * p,
                p >= 1,
        ;
        assert(q == qm);
        assert(low == 0);
        lemma_rne_exact(n, s);
    } else {
        assert((q + 1) * p <= qm * p) by (nonlinear_arith)
            requires
                q + 1 <= qm,
                p >= 1,
        ;
        assert(q * p <= (q + 1) * p) by (nonlinear_arith)
            requires
                p >= 1,
        ;
    }
}

/// Rounding never falls below a multiple of the granule that the input
/// dominates.
pub proof fn lemma_rne_ge_multiple(n: nat, s: nat, m: nat)
    requires
        m <= n,
        m % pow2(s) == 0,
    ensures
        m <= rne_at(n, s),
{
    let p = pow2(s);
    lemma_pow2_pos(s);
    let q = n / p;
    let low = n % p;
    lemma_fundamental_div_mod(n as int, p as int);
    lemma_fundamental_div_mod(m as int, p as int);
    let qm = m / p;
    assert(m == qm * p);
    assert(qm <= q) by (nonlinear_arith)
        requires
            qm * p <= n,
            n == q * p + low,
            0 <= low < p,
            p >= 1,
    ;
    assert(qm * p <= q * p) by (nonlinear_arith)
        requires
            qm <= q,
            p >= 1,
    ;
    assert(q * p <= (q + 1) * p) by (nonlinear_arith)
        requires
            p >= 1,
    ;
}

/// Round-to-nearest moves the value by at most half a granule.
pub proof fn lemma_rne_close(n: nat, s: nat)
    ensures
        2 * rne_at(n, s) <= 2 * n + pow2(s),
        n <= rne_at(n, s) + pow2(s),
{
    let p = pow2(s);
    lemma_pow2_pos(s);
    let q = n / p;
    let low = n % p;
    lemma_fundamental_div_mod(n as int, p as int);
    if 2 * low > p || (2 * low == p && q % 2 == 1) {
        assert(2 * ((q + 1) * p) == 2 * (q * p) + 2 * p) by (nonlinear_arith);
        assert(2 * low >= p);
    } else {
        assert(q * p <= n);
    }
}

/// The numeric value of 2^128.
proof fn lemma_pow2_128()
    ensures
        pow2(128) == 0x100000000000000000000000000000000,
{
    lemma_pow2_adds(64, 64);
    lemma2_to64_rest();
    assert(pow2(128) == 0x100000000000000000000000000000000) by (nonlinear_arith)
        requires
            pow2(128) == pow2(64) * pow2(64),
            pow2(64) == 0x10000000000000000,
    ;
}

/// Every power of two with exponent below 128 fits in 128 bits.
proof fn lemma_pow2_fits_u128(e: nat)
    requires
        e < 128,
    ensures
        pow2(e) < 0x100000000000000000000000000000000,
{
    lemma_pow2_128();
    lemma_pow2_strictly_increases(e, 128);
}

/// Monotonicity of powers of two, non-strict.
proof fn lemma_pow2_le(e1: nat, e2: nat)
    requires
        e1 <= e2,
    ensures
        pow2(e1) <= pow2(e2),
{
    if e1 < e2 {
        lemma_pow2_strictly_increases(e1, e2);
    }
}

/// Division and remainder both scale with a common power-of-two factor.
proof fn lemma_div_mod_scale(a: nat, s: nat, k: nat)
    ensures
        (a * pow2(k)) / pow2(s + k) == a / pow2(s),
        (a * pow2(k)) % pow2(s + k) == (a % pow2(s)) * pow2(k),
{
    let p = pow2(s);
    let pk = pow2(k);
    lemma_pow2_pos(s);
    lemma_pow2_pos(k);
    lemma_pow2_adds(s, k);
    lemma_fundamental_div_mod(a as int, p as int);
    let q = a / p;
    let low = a % p;
    assert(a == p * q + low);
    assert(low < p);
    assert(a * pk == (p * pk) * q + low * pk) by (nonlinear_arith)
        requires
            a == p * q + low,
    ;
    assert(low * pk < p * pk) by (nonlinear_arith)
        requires
            low < p,
            pk >= 1,
    ;
    lemma_fundamental_div_mod_converse(
        (a * pk) as int,
        (p * pk) as int,
        q as int,
        (low * pk) as int,
    );
}

/// Rounding to 24 significant bits is scale invariant.
pub proof fn lemma_rnd24_scale(n: nat, k: nat)
    requires
        n >= 1,
    ensures
        rnd24(n * pow2(k)) == rnd24(n) * pow2(k),
{
    let pk = pow2(k);
    lemma_pow2_pos(k);
    lemma_flog2_mul_pow2(n, k);
    if n * pk < pow2(24) {
        assert(n <= n * pk) by (nonlinear_arith)
            requires
                pk >= 1,
                n >= 1,
        ;
    } else if n < pow2(24) {
        // a small factor times a power of two is exact at the coarser granule
        lemma_flog2_bounds(n);
        assert(flog2(n) <= 23) by {
            if flog2(n) > 23 {
                lemma_pow2_le(24, flog2(n));
            }
        }
        let s = (flog2(n) + k - 23) as nat;
        assert(flog2(n) + k >= 24) by {
            if flog2(n) + k < 24 {
                lemma_pow2_le(flog2(n) + k + 1, 24);
                lemma_flog2_bounds(n * pk);
            }
        }
        let d = (23 - flog2(n)) as nat;
        assert(pk == pow2(d) * pow2(s)) by {
            lemma_pow2_adds(d, s);
        }
        assert(n * pk == (n * pow2(d)) * pow2(s)) by (nonlinear_arith)
            requires
                pk == pow2(d) * pow2(s),
        ;
        assert((n * pk) % pow2(s) == 0) by {
            lemma_pow2_pos(s);
            vstd::arithmetic::div_mod::lemma_mod_multiples_basic(
                (n * pow2(d)) as int,
                pow2(s) as int,
            );
            assert((n * pow2(d)) * pow2(s) == pow2(s) * (n * pow2(d))) by (nonlinear_arith);
        }
        lemma_rne_exact(n * pk, s);
    } else {
        lemma_flog2_bounds(n);
        assert(flog2(n) >= 24) by {
            if flog2(n) < 24 {
                lemma_pow2_le(flog2(n) + 1, 24);
            }
        }
        assert(n <= n * pk) by (nonlinear_arith)
            requires
                pk >= 1,
                n >= 1,
        ;
        let s = (flog2(n) - 23) as nat;
        assert((flog2(n * pk) - 23) as nat == s + k);
        lemma_div_mod_scale(n, s, k);
        let p = pow2(s);
        lemma_pow2_pos(s);
        lemma_pow2_adds(s, k);
        let q = n / p;
        let low = n % p;
        assert(2 * (low * pk) > p * pk <==> 2 * low > p) by (nonlinear_arith)
            requires
                pk >= 1,
        ;
        assert(2 * (low * pk) == p * pk <==> 2 * low == p) by (nonlinear_arith)
            requires
                pk >= 1,
        ;
        assert(((q + 1) * (p * pk)) == ((q + 1) * p) * pk) by (nonlinear_arith);
        assert((q * (p * pk)) == (q * p) * pk) by (nonlinear_arith);
    }
}

/// Executable power of two.
fn pow2_u128(e: u32) -> (r: u128)
    requires
        e < 128,
    ensures
        r == pow2(e as nat),
{
    proof {
        lemma2_to64();
    }
    let mut r: u128 = 1;
    let mut i: u32 = 0;
    while i < e
        invariant
            i <= e,
            e < 128,
            r == pow2(i as nat),
        decreases e - i,
    {
        proof {
            lemma_pow2_adds(i as nat, 1);
            lemma2_to64();
            lemma_pow2_fits_u128((i + 1) as nat);
        }
        r = r * 2;
        i = i + 1;
    }
    r
}

/// Executable floor of the base-2 logarithm.
fn floor_log2(x: u128) -> (r: u32)
    requires
        x >= 1,
    ensures
        r == flog2(x as nat),
        r <= 127,
{
    let mut y: u128 = x;
    let mut r: u32 = 0;
    proof {
        assert(flog2(x as nat) <= 127) by {
            lemma_flog2_bounds(x as nat);
            if flog2(x as nat) > 127 {
                lemma_pow2_128();
                lemma_pow2_le(128, flog2(x as nat));
            }
        }
    }
    while y >= 2
        invariant
            y >= 1,
            flog2(x as nat) == flog2(y as nat) + r,
            flog2(x as nat) <= 127,
        decreases y,
    {
        proof {
            assert(flog2(y as nat) == 1 + flog2((y as nat) / 2));
        }
        y = y / 2;
        r = r + 1;
    }
    r
}

/// Rounds a positive integer to at most 24 significant bits, returned as a
/// significand of at most 2^24 and a power-of-two shift.
fn norm24(n: u128) -> (res: (u128, u32))
    requires
        n >= 1,
    ensures
        res.0 * pow2(res.1 as nat) == rnd24(n as nat),
        res.0 <= pow2(24),
        res.0 >= 1,
        n < pow2(24) ==> res.0 == n && res.1 == 0,
        n >= pow2(24) ==> res.1 == flog2(n as nat) - 23 && res.0 >= pow2(23),
{
    proof {
        lemma2_to64();
    }
    if n < 0x1000000 {
        proof {
            assert(pow2(0) == 1);
            assert(n * pow2(0) == rnd24(n as nat));
        }
        (n, 0)
    } else {
        let b = floor_log2(n);
        proof {
            lemma_flog2_bounds(n as nat);
            assert(b >= 24) by {
                if (b as nat) < 24 {
                    if (b as nat) + 1 < 24 {
                        lemma_pow2_strictly_increases((b as nat) + 1, 24);
                    }
                    assert(pow2((b as nat) + 1) <= pow2(24));
                }
            }
        }
        let s = b - 23;
        let p = pow2_u128(s);
        proof {
            lemma_pow2_pos(s as nat);
            // the granule is at most 2^104, so doubling the remainder is safe
            lemma_pow2_le(s as nat, 104);
            lemma_pow2_fits_u128(105);
            lemma_pow2_adds(104, 1);
        }
        let q = n / p;
        let low = n % p;
        proof {
            // q < 2^24, so q + 1 <= 2^24 and the result significand is in range
            assert(q < pow2(24)) by {
                lemma_pow2_adds(s as nat, 24);
                vstd::arithmetic::div_mod::lemma_multiply_divide_lt(
                    n as int,
                    pow2(s as nat) as int,
                    pow2(24) as int,
                );
            }
            assert(q >= pow2(23)) by {
                lemma_pow2_adds(s as nat, 23);
                assert(pow2(s as nat) * pow2(23) <= n) by (nonlinear_arith)
                    requires
                        pow2(b as nat) <= n,
                        pow2(b as nat) == pow2(s as nat) * pow2(23),
                ;
                lemma_div_is_ordered((pow2(s as nat) * pow2(23)) as int, n as int, pow2(
                    s as nat,
                ) as int);
                lemma_div_multiples_vanish(pow2(23) as int, pow2(s as nat) as int);
            }
        }
        let up: bool = 2 * low > p || (2 * low == p && q % 2 == 1);
        let m = if up {
            q + 1
        } else {
            q
        };
        proof {
            assert(m * pow2(s as nat) == rnd24(n as nat));
        }
        (m, s)
    }
}

/// Whether `n`, read as a value scaled by a power of two, has at most 24
/// significant bits, i.e. is exactly representable in single precision.
pub open spec fn is_f24(n: nat) -> bool {
    n < pow2(24) || n % pow2((flog2(n) - 23) as nat) == 0
}

/// A significand in [2^23, 2^24] shifted by any power of two is representable.
proof fn lemma_f24_form(m: nat, k: nat)
    requires
        pow2(23) <= m <= pow2(24),
    ensures
        is_f24(m * pow2(k)),
{
    let n = m * pow2(k);
    lemma_pow2_pos(k);
    lemma2_to64();
    if m < pow2(24) {
        lemma_flog2_unique(m, 23);
        lemma_flog2_mul_pow2(m, k);
        if n >= pow2(24) {
            vstd::arithmetic::div_mod::lemma_mod_multiples_basic(m as int, pow2(k) as int);
        }
    } else {
        lemma_pow2_adds(24, k);
        lemma_flog2_mul_pow2(1, 24 + k);
        assert(n == pow2(24 + k)) by (nonlinear_arith)
            requires
                m == pow2(24),
                pow2(24) * pow2(k) == pow2(24 + k),
                n == m * pow2(k),
        ;
        assert(flog2(n) == 24 + k) by {
            assert(1 * pow2(24 + k) == pow2(24 + k)) by (nonlinear_arith);
        }
        lemma_pow2_le(24, 24 + k);
        lemma_pow2_adds(23, k + 1);
        vstd::arithmetic::div_mod::lemma_mod_multiples_basic(pow2(23) as int, pow2(k + 1) as int);
        assert(pow2(23) * pow2(k + 1) == pow2(24 + k));
    }
}

/// The unit draw, scaled by 2^56: the exact value of the draw `u` divided by
/// the largest 32-bit value, rounded to 53 significant bits (double
/// precision; the odd divisor makes a tie impossible there) and then to 24
/// significant bits, ties to even (single precision).
pub open spec fn spec_unit_q56(u: u32) -> nat {
    if u == 0 {
        0
    } else if u == 0xFFFFFFFF {
        pow2(56)
    } else {
        let n = (u as nat) * pow2(85);
        let d = 0xFFFFFFFF as nat;
        let q0 = n / d;
        let r0 = n % d;
        let s = (flog2(q0) - 52) as nat;
        let p = pow2(s);
        let qh = q0 / p;
        let low = q0 % p;
        let m85 = if 2 * (low * d + r0) > p * d {
            (qh + 1) * p
        } else {
            qh * p
        };
        rnd24(m85) / pow2(29)
    }
}

/// Truncation toward zero of `(w as f32) * z`, where `z` is a unit draw
/// given scaled by 2^56: round `w` to 24 significant bits, multiply, round
/// the product to 24 significant bits, and drop the fractional part.
pub open spec fn spec_cap_map(w: nat, zq: nat) -> nat {
    rnd24(rnd24(w) * zq) / pow2(56)
}

/// Computes the unit draw for `u`, scaled by 2^56.
pub(crate) fn unit_q56(u: u32) -> (zq: u64)
    ensures
        zq == spec_unit_q56(u),
        zq <= pow2(56),
        u == 0 ==> zq == 0,
        u != 0 ==> pow2(24) <= zq && is_f24(zq as nat),
{
    proof {
        lemma2_to64();
        lemma2_to64_rest();
    }
    if u == 0 {
        return 0;
    }
    if u == 0xFFFFFFFF {
        proof {
            lemma_f24_form(pow2(23), 33);
            lemma_pow2_adds(23, 33);
            lemma_pow2_le(24, 56);
        }
        return 0x100000000000000;
    }
    let p85: u128 = pow2_u128(85);
    proof {
        lemma_pow2_adds(32, 85);
        lemma_pow2_fits_u128(117);
        lemma_pow2_pos(85);
        assert((u as nat) * pow2(85) < pow2(117)) by (nonlinear_arith)
            requires
                (u as nat) < pow2(32),
                pow2(32) * pow2(85) == pow2(117),
                pow2(85) >= 1,
        ;
    }
    let n: u128 = (u as u128) * p85;
    let d: u128 = 0xFFFFFFFF;
    let q0: u128 = n / d;
    let r0: u128 = n % d;
    proof {
        // 2^53 <= q0 < 2^85
        lemma_pow2_adds(53, 32);
        lemma_div_is_ordered_by_denominator(n as int, d as int, pow2(32) as int);
        assert(n as nat / pow2(32) >= pow2(53)) by {
            assert(n as nat == ((u as nat) * pow2(53)) * pow2(32)) by (nonlinear_arith)
                requires
                    pow2(53) * pow2(32) == pow2(85),
                    n as nat == (u as nat) * pow2(85),
            ;
            vstd::arithmetic::div_mod::lemma_div_by_multiple(
                ((u as nat) * pow2(53)) as int,
                pow2(32) as int,
            );
            assert((u as nat) * pow2(53) >= pow2(53)) by (nonlinear_arith)
                requires
                    u >= 1,
                    pow2(53) >= 1,
            ;
        }
        assert(q0 >= pow2(53));
        assert(q0 < pow2(85)) by {
            assert(n < d * pow2(85)) by (nonlinear_arith)
                requires
                    (u as nat) < d,
                    pow2(85) >= 1,
                    n as nat == (u as nat) * pow2(85),
            ;
            vstd::arithmetic::div_mod::lemma_multiply_divide_lt(n as int, d as int, pow2(85) as int);
        }
    }
    let b: u32 = floor_log2(q0);
    proof {
        lemma_flog2_bounds(q0 as nat);
        assert(b >= 53) by {
            if (b as nat) < 53 {
                lemma_pow2_le((b as nat) + 1, 53);
            }
        }
        assert(b <= 84) by {
            if (b as nat) > 84 {
                lemma_pow2_le(85, b as nat);
            }
        }
    }
    let s: u32 = b - 52;
    let p: u128 = pow2_u128(s);
    proof {
        lemma_pow2_pos(s as nat);
        lemma_pow2_le(s as nat, 32);
    }
    let qh: u128 = q0 / p;
    let low: u128 = q0 % p;
    proof {
        // all the quantities in the tie-free rounding test fit comfortably
        assert(low < p);
        assert(low * d < pow2(64)) by (nonlinear_arith)
            requires
                low < pow2(32),
                d < pow2(32),
                pow2(32) * pow2(32) == pow2(64),
        ;
        lemma_pow2_adds(32, 32);
        assert(p * d < pow2(64)) by (nonlinear_arith)
            requires
                p <= pow2(32),
                d < pow2(32),
                pow2(32) * pow2(32) == pow2(64),
        ;
        lemma_pow2_fits_u128(66);
        lemma_pow2_adds(64, 2);
        lemma_pow2_le(32, 64);
        vstd::arithmetic::div_mod::lemma_mod_division_less_than_divisor(n as int, d as int);
        assert(r0 < pow2(32));
        assert(2 * (low * d + r0) < pow2(66)) by (nonlinear_arith)
            requires
                low * d < pow2(64),
                r0 < pow2(32),
                pow2(64) * pow2(2) == pow2(66),
                pow2(2) == 4,
                pow2(32) <= pow2(64),
        ;
    }
    let up: bool = 2 * (low * d + r0) > p * d;
    proof {
        // the rounded quotient stays within [2^53, 2^85]
        assert(qh * p >= pow2(53)) by {
            lemma_pow2_adds((53 - s as nat) as nat, s as nat);
            vstd::arithmetic::div_mod::lemma_mod_multiples_basic(
                pow2((53 - s as nat) as nat) as int,
                pow2(s as nat) as int,
            );
            lemma_div_is_ordered(pow2(53) as int, q0 as int, p as int);
            vstd::arithmetic::div_mod::lemma_div_by_multiple(
                pow2((53 - s as nat) as nat) as int,
                pow2(s as nat) as int,
            );
            assert(qh >= pow2((53 - s as nat) as nat));
            assert(qh * p >= pow2((53 - s as nat) as nat) * p) by (nonlinear_arith)
                requires
                    qh >= pow2((53 - s as nat) as nat),
                    p >= 1,
            ;
        }
        assert((qh + 1) * p <= pow2(85)) by {
            lemma_pow2_adds((85 - s as nat) as nat, s as nat);
            assert(q0 < p * pow2((85 - s as nat) as nat)) by (nonlinear_arith)
                requires
                    q0 < pow2(85),
                    pow2(85) == pow2((85 - s as nat) as nat) * pow2(s as nat),
                    p == pow2(s as nat),
            ;
            vstd::arithmetic::div_mod::lemma_multiply_divide_lt(
                q0 as int,
                p as int,
                pow2((85 - s as nat) as nat) as int,
            );
            assert(qh + 1 <= pow2((85 - s as nat) as nat));
            assert((qh + 1) * p <= pow2((85 - s as nat) as nat) * p) by (nonlinear_arith)
                requires
                    qh + 1 <= pow2((85 - s as nat) as nat),
                    p >= 1,
            ;
        }
        assert(qh * p <= (qh + 1) * p) by (nonlinear_arith)
            requires
                p >= 1,
        ;
    }
    let m85: u128 = if up {
        (qh + 1) * p
    } else {
        qh * p
    };
    let res = norm24(m85);
    let mz: u128 = res.0;
    let sz: u32 = res.1;
    proof {
        // m85 >= 2^53 > 2^24, so norm24 took the rounding branch
        lemma_pow2_le(24, 53);
        lemma_flog2_bounds(m85 as nat);
        assert(flog2(m85 as nat) >= 53) by {
            if flog2(m85 as nat) < 53 {
                lemma_pow2_le(flog2(m85 as nat) + 1, 53);
            }
        }
        assert(flog2(m85 as nat) <= 85) by {
            if flog2(m85 as nat) > 85 {
                lemma_pow2_le(86, flog2(m85 as nat));
                lemma_pow2_strictly_increases(85, 86);
            }
        }
        assert(m85 >= pow2(24));
        assert(sz >= 30 && sz <= 62);
        assert(mz >= pow2(23));
        // the scaled unit value fits well under the 128-bit limit
        lemma_pow2_adds(24, 33);
        lemma_pow2_fits_u128(57);
        lemma_pow2_le((sz - 29) as nat, 33);
        assert((mz as nat) * pow2((sz - 29) as nat) <= pow2(57)) by (nonlinear_arith)
            requires
                mz <= pow2(24),
                pow2((sz - 29) as nat) <= pow2(33),
                pow2(24) * pow2(33) == pow2(57),
        ;
    }
    let zq128: u128 = mz * pow2_u128(sz - 29);
    proof {
        let rr = rnd24(m85 as nat);
        // rr == mz * 2^sz == (mz * 2^(sz-29)) * 2^29, so zq is rr / 2^29
        lemma_pow2_adds((sz - 29) as nat, 29);
        assert(zq128 as nat * pow2(29) == rr) by (nonlinear_arith)
            requires
                zq128 as nat == (mz as nat) * pow2((sz - 29) as nat),
                rr == (mz as nat) * pow2(sz as nat),
                pow2((sz - 29) as nat) * pow2(29) == pow2(sz as nat),
        ;
        vstd::arithmetic::div_mod::lemma_div_by_multiple(zq128 as int, pow2(29) as int);
        assert(zq128 as nat == rr / pow2(29));
        // rr <= 2^85 because 2^85 is itself a multiple of the granule
        assert(rr <= pow2(85)) by {
            lemma_pow2_adds((85 - (flog2(m85 as nat) - 23) as nat) as nat, (flog2(m85 as nat)
                - 23) as nat);
            vstd::arithmetic::div_mod::lemma_mod_multiples_basic(
                pow2((85 - (flog2(m85 as nat) - 23) as nat) as nat) as int,
                pow2((flog2(m85 as nat) - 23) as nat) as int,
            );
            lemma_rne_le_multiple(m85 as nat, (flog2(m85 as nat) - 23) as nat, pow2(85));
        }
        // rr >= 2^53 because 2^flog2(m85) is a multiple of the granule
        assert(rr >= pow2(53)) by {
            let f = flog2(m85 as nat);
            lemma_pow2_adds((f - (f - 23) as nat) as nat, (f - 23) as nat);
            vstd::arithmetic::div_mod::lemma_mod_multiples_basic(
                pow2((f - (f - 23) as nat) as nat) as int,
                pow2((f - 23) as nat) as int,
            );
            lemma_rne_ge_multiple(m85 as nat, (f - 23) as nat, pow2(f));
            lemma_pow2_le(53, f);
        }
        lemma_pow2_adds(56, 29);
        lemma_pow2_adds(24, 29);
        assert(zq128 <= pow2(56)) by {
            assert(rr <= pow2(56) * pow2(29));
            vstd::arithmetic::div_mod::lemma_multiply_divide_le(
                rr as int,
                pow2(29) as int,
                pow2(56) as int,
            );
        }
        assert(zq128 >= pow2(24)) by {
            lemma_pow2_le(53, 53);
            assert(pow2(24) * pow2(29) <= rr);
            lemma_div_is_ordered((pow2(24) * pow2(29)) as int, rr as int, pow2(29) as int);
            vstd::arithmetic::div_mod::lemma_div_by_multiple(pow2(24) as int, pow2(29) as int);
        }
        lemma_pow2_fits_u128(57);
        lemma_f24_form(mz as nat, (sz - 29) as nat);
        // the computation above matches the specification step for step
        assert(zq128 as nat == spec_unit_q56(u));
    }
    zq128 as u64
}

/// The unit draw never exceeds one: its Q56 scaling is at most 2^56.
pub proof fn lemma_unit_le(u: u32)
    ensures
        spec_unit_q56(u) <= pow2(56),
{
    lemma2_to64();
    lemma2_to64_rest();
    if u == 0 || u == 0xFFFFFFFF {
    } else {
        let n = (u as nat) * pow2(85);
        let d = 0xFFFFFFFF as nat;
        let q0 = n / d;
        let r0 = n % d;
        let s = (flog2(q0) - 52) as nat;
        let p = pow2(s);
        let qh = q0 / p;
        let low = q0 % p;
        let m85 = if 2 * (low * d + r0) > p * d {
            (qh + 1) * p
        } else {
            qh * p
        };
        // q0 lies in [2^53, 2^85), so the rounding granule divides 2^85
        lemma_pow2_adds(53, 32);
        lemma_div_is_ordered_by_denominator(n as int, d as int, pow2(32) as int);
        assert(n / pow2(32) >= pow2(53)) by {
            assert(n == ((u as nat) * pow2(53)) * pow2(32)) by (nonlinear_arith)
                requires
                    pow2(53) * pow2(32) == pow2(85),
                    n == (u as nat) * pow2(85),
            ;
            vstd::arithmetic::div_mod::lemma_div_by_multiple(
                ((u as nat) * pow2(53)) as int,
                pow2(32) as int,
            );
            assert((u as nat) * pow2(53) >= pow2(53)) by (nonlinear_arith)
                requires
                    u >= 1,
                    pow2(53) >= 1,
            ;
        }
        assert(q0 < pow2(85)) by {
            assert(n < d * pow2(85)) by (nonlinear_arith)
                requires
                    (u as nat) < d,
                    pow2(85) >= 1,
                    n == (u as nat) * pow2(85),
            ;
            vstd::arithmetic::div_mod::lemma_multiply_divide_lt(n as int, d as int, pow2(85) as int);
        }
        lemma_flog2_bounds(q0);
        assert(flog2(q0) >= 53) by {
            if flog2(q0) < 53 {
                lemma_pow2_le(flog2(q0) + 1, 53);
            }
        }
        assert(flog2(q0) <= 84) by {
            if flog2(q0) > 84 {
                lemma_pow2_le(85, flog2(q0));
            }
        }
        lemma_pow2_pos(s);
        // the rounded quotient stays at or under 2^85
        assert((qh + 1) * p <= pow2(85)) by {
            lemma_pow2_adds((85 - s) as nat, s);
            assert(q0 < p * pow2((85 - s) as nat)) by (nonlinear_arith)
                requires
                    q0 < pow2(85),
                    pow2(85) == pow2((85 - s) as nat) * pow2(s),
                    p == pow2(s),
            ;
            vstd::arithmetic::div_mod::lemma_multiply_divide_lt(
                q0 as int,
                p as int,
                pow2((85 - s) as nat) as int,
            );
            assert((qh + 1) * p <= pow2((85 - s) as nat) * p) by (nonlinear_arith)
                requires
                    qh + 1 <= pow2((85 - s) as nat),
                    p >= 1,
            ;
        }
        assert(qh * p <= (qh + 1) * p) by (nonlinear_arith)
            requires
                p >= 1,
        ;
        assert(m85 >= 1) by {
            lemma_pow2_pos(53);
            assert(qh >= 1) by {
                lemma_div_is_ordered(pow2(53) as int, q0 as int, p as int);
                lemma_pow2_adds((53 - s) as nat, s);
                vstd::arithmetic::div_mod::lemma_div_by_multiple(
                    pow2((53 - s) as nat) as int,
                    pow2(s) as int,
                );
                lemma_pow2_pos((53 - s) as nat);
            }
            assert(qh * p >= 1) by (nonlinear_arith)
                requires
                    qh >= 1,
                    p >= 1,
            ;
        }
        // its single-precision rounding keeps the same bound
        lemma_flog2_bounds(m85);
        assert(flog2(m85) <= 85) by {
            if flog2(m85) > 85 {
                lemma_pow2_le(86, flog2(m85));
                lemma_pow2_strictly_increases(85, 86);
            }
        }
        let rr = rnd24(m85);
        assert(rr <= pow2(85)) by {
            if m85 >= pow2(24) {
                let g = (flog2(m85) - 23) as nat;
                lemma_pow2_adds((85 - g) as nat, g);
                vstd::arithmetic::div_mod::lemma_mod_multiples_basic(
                    pow2((85 - g) as nat) as int,
                    pow2(g) as int,
                );
                lemma_rne_le_multiple(m85, g, pow2(85));
            } else {
                lemma_pow2_le(24, 85);
            }
        }
        lemma_pow2_adds(56, 29);
        vstd::arithmetic::div_mod::lemma_multiply_divide_le(
            rr as int,
            pow2(29) as int,
            pow2(56) as int,
        );
        lemma_pow2_pos(29);
    }
}

/// Computes `spec_cap_map(w, zq)`: the truncation toward zero of
/// `(w as f32) * z`, with the unit draw `z` given scaled by 2^56.
pub(crate) fn scaled_trunc(w: u64, zq: u64) -> (r: u128)
    requires
        zq <= pow2(56),
        zq > 0 ==> pow2(24) <= zq && is_f24(zq as nat),
    ensures
        r == spec_cap_map(w as nat, zq as nat),
{
    proof {
        lemma2_to64();
    }
    if w == 0 || zq == 0 {
        proof {
            lemma_pow2_pos(56);
            assert(rnd24(0) == 0);
            if w == 0 {
                assert(rnd24(w as nat) * (zq as nat) == 0) by (nonlinear_arith)
                    requires
                        rnd24(w as nat) == 0,
                ;
            } else {
                assert(rnd24(w as nat) * (zq as nat) == 0) by (nonlinear_arith)
                    requires
                        zq == 0,
                ;
            }
            assert(spec_cap_map(w as nat, zq as nat) == 0) by {
                vstd::arithmetic::div_mod::lemma_basic_div(0int, pow2(56) as int);
            }
        }
        return 0;
    }
    // round the cap to 24 significant bits
    let wn = norm24(w as u128);
    let mw: u128 = wn.0;
    let ew: u32 = wn.1;
    proof {
        lemma_flog2_bounds(w as nat);
        if w as nat >= pow2(24) {
            assert(flog2(w as nat) <= 63) by {
                if flog2(w as nat) > 63 {
                    lemma_pow2_le(64, flog2(w as nat));
                    lemma_pow2_adds(32, 32);
                }
            }
        }
        assert(ew <= 40);
    }
    // significand and exponent of the unit draw
    let bz: u32 = floor_log2(zq as u128);
    proof {
        lemma_flog2_bounds(zq as nat);
        assert(bz >= 24) by {
            if (bz as nat) < 24 {
                lemma_pow2_le((bz as nat) + 1, 24);
            }
        }
        assert(bz <= 56) by {
            if (bz as nat) > 56 {
                lemma_pow2_le(57, bz as nat);
                lemma_pow2_strictly_increases(56, 57);
            }
        }
    }
    let ez: u32 = bz - 23;
    let pz: u128 = pow2_u128(ez);
    proof {
        lemma_pow2_pos(ez as nat);
        vstd::arithmetic::div_mod::lemma_fundamental_div_mod(zq as int, pz as int);
    }
    let mz: u128 = (zq as u128) / pz;
    proof {
        // the division is exact and the significand lies in [2^23, 2^24)
        assert((zq as nat) % pow2(ez as nat) == 0);
        assert(zq as nat == pow2(ez as nat) * mz + 0);
        assert(mz < pow2(24)) by {
            lemma_pow2_adds(ez as nat, 24);
            assert((zq as nat) < pow2(ez as nat) * pow2(24)) by (nonlinear_arith)
                requires
                    (zq as nat) < pow2((bz as nat) + 1),
                    pow2((bz as nat) + 1) == pow2(ez as nat) * pow2(24),
            ;
            vstd::arithmetic::div_mod::lemma_multiply_divide_lt(
                zq as int,
                pz as int,
                pow2(24) as int,
            );
        }
        assert(mz >= pow2(23)) by {
            lemma_pow2_adds(ez as nat, 23);
            lemma_div_is_ordered((pow2(ez as nat) * pow2(23)) as int, zq as int, pz as int);
            lemma_div_multiples_vanish(pow2(23) as int, pow2(ez as nat) as int);
        }
        lemma_pow2_adds(24, 24);
        lemma_pow2_fits_u128(48);
        assert(mw * mz < pow2(48)) by (nonlinear_arith)
            requires
                mw <= pow2(24),
                mz < pow2(24),
                mw >= 1,
                pow2(24) * pow2(24) == pow2(48),
        ;
        assert(mw * mz >= 1) by (nonlinear_arith)
            requires
                mw >= 1,
                mz >= 1,
        ;
    }
    // round the product of significands to 24 significant bits
    let p: u128 = mw * mz;
    let pn = norm24(p);
    let mp: u128 = pn.0;
    let sp: u32 = pn.1;
    proof {
        if p as nat >= pow2(24) {
            lemma_flog2_bounds(p as nat);
            assert(flog2(p as nat) <= 47) by {
                if flog2(p as nat) > 47 {
                    lemma_pow2_le(48, flog2(p as nat));
                }
            }
        }
        assert(sp <= 24);
    }
    let t: u32 = sp + ew + ez;
    proof {
        // rnd24(w) * zq == p * 2^(ew + ez), so its rounding is mp * 2^t
        let rw = rnd24(w as nat);
        assert(rw == mw * pow2(ew as nat));
        lemma_pow2_adds(ew as nat, ez as nat);
        assert(rw * (zq as nat) == (p as nat) * pow2((ew + ez) as nat)) by (nonlinear_arith)
            requires
                rw == (mw as nat) * pow2(ew as nat),
                zq as nat == pow2(ez as nat) * (mz as nat),
                p as nat == (mw as nat) * (mz as nat),
                pow2((ew + ez) as nat) == pow2(ew as nat) * pow2(ez as nat),
        ;
        lemma_rnd24_scale(p as nat, (ew + ez) as nat);
        assert(rnd24(rw * (zq as nat)) == rnd24(p as nat) * pow2((ew + ez) as nat));
        assert(rnd24(p as nat) == mp * pow2(sp as nat));
        lemma_pow2_adds(sp as nat, (ew + ez) as nat);
        assert(rnd24(rw * (zq as nat)) == (mp as nat) * pow2(t as nat)) by (nonlinear_arith)
            requires
                rnd24(rw * (zq as nat)) == rnd24(p as nat) * pow2((ew + ez) as nat),
                rnd24(p as nat) == (mp as nat) * pow2(sp as nat),
                pow2(t as nat) == pow2(sp as nat) * pow2((ew + ez) as nat),
        ;
    }
    if t >= 56 {
        proof {
            lemma_pow2_adds(56, (t - 56) as nat);
            lemma_pow2_le((t - 56) as nat, 42);
            lemma_pow2_adds(24, 42);
            lemma_pow2_fits_u128(66);
            assert(mp * pow2((t - 56) as nat) <= pow2(66)) by (nonlinear_arith)
                requires
                    mp <= pow2(24),
                    pow2((t - 56) as nat) <= pow2(42),
                    pow2(24) * pow2(42) == pow2(66),
            ;
            let rr = rnd24(rnd24(w as nat) * (zq as nat));
            assert(rr == ((mp as nat) * pow2((t - 56) as nat)) * pow2(56)) by (nonlinear_arith)
                requires
                    rr == (mp as nat) * pow2(t as nat),
                    pow2(t as nat) == pow2(56) * pow2((t - 56) as nat),
            ;
            vstd::arithmetic::div_mod::lemma_div_by_multiple(
                ((mp as nat) * pow2((t - 56) as nat)) as int,
                pow2(56) as int,
            );
        }
        mp * pow2_u128(t - 56)
    } else {
        proof {
            let rr = rnd24(rnd24(w as nat) * (zq as nat));
            lemma_pow2_adds(t as nat, (56 - t) as nat);
            lemma_pow2_pos(t as nat);
            lemma_pow2_pos((56 - t) as nat);
            vstd::arithmetic::div_mod::lemma_div_denominator(
                rr as int,
                pow2(t as nat) as int,
                pow2((56 - t) as nat) as int,
            );
            vstd::arithmetic::div_mod::lemma_div_by_multiple(mp as int, pow2(t as nat) as int);
            assert((mp as nat) * pow2(t as nat) == pow2(t as nat) * (mp as nat))
                by (nonlinear_arith);
            assert(rr / pow2(56) == (mp as nat) / pow2((56 - t) as nat));
        }
        mp / pow2_u128(56 - t)
    }
}

/// For caps below 2^24 the truncated product never exceeds the cap: the cap
/// itself is exact in single precision, the unit draw is at most one, and
/// rounding the product adds less than one whole unit of the cap.
pub proof fn lemma_cap_map_le(w: nat, zq: nat)
    requires
        w < pow2(24),
        zq <= pow2(56),
    ensures
        spec_cap_map(w, zq) <= w,
{
    lemma2_to64();
    lemma2_to64_rest();
    let x = w * zq;
    assert(rnd24(w) == w);
    assert(x <= w * pow2(56)) by (nonlinear_arith)
        requires
            x == w * zq,
            zq <= pow2(56),
            w >= 0,
    ;
    lemma_pow2_pos(56);
    if x < pow2(24) {
        lemma_pow2_strictly_increases(24, 56);
        vstd::arithmetic::div_mod::lemma_basic_div(x as int, pow2(56) as int);
        assert(spec_cap_map(w, zq) == 0);
    } else {
        let f = flog2(x);
        let s = (f - 23) as nat;
        lemma_flog2_bounds(x);
        assert(f >= 24) by {
            if f < 24 {
                lemma_pow2_le(f + 1, 24);
            }
        }
        lemma_rne_close(x, s);
        // the granule is at most x / 2^23 <= w * 2^33
        assert(pow2(s) * pow2(23) == pow2(f)) by {
            lemma_pow2_adds(s, 23);
        }
        assert(pow2(56) == pow2(23) * pow2(33)) by {
            lemma_pow2_adds(23, 33);
        }
        assert(pow2(24) * pow2(33) == pow2(57)) by {
            lemma_pow2_adds(24, 33);
        }
        assert(pow2(56) * 2 == pow2(57)) by {
            lemma_pow2_adds(56, 1);
        }
        lemma_pow2_pos(23);
        lemma_pow2_pos(33);
        assert(pow2(s) <= w * pow2(33)) by (nonlinear_arith)
            requires
                pow2(s) * pow2(23) == pow2(f),
                pow2(f) <= x,
                x <= w * pow2(56),
                pow2(56) == pow2(23) * pow2(33),
                pow2(23) >= 1,
                pow2(33) >= 1,
        ;
        // so twice the rounded product is under 2 * (w + 1) * 2^56
        assert(2 * rnd24(x) < 2 * ((w + 1) * pow2(56))) by (nonlinear_arith)
            requires
                2 * rnd24(x) <= 2 * x + pow2(s),
                x <= w * pow2(56),
                pow2(s) <= w * pow2(33),
                w < pow2(24),
                pow2(24) * pow2(33) == pow2(57),
                pow2(56) * 2 == pow2(57),
                pow2(33) >= 1,
                pow2(56) >= 1,
        ;
        vstd::arithmetic::div_mod::lemma_multiply_divide_lt(
            rnd24(x) as int,
            pow2(56) as int,
            (w + 1) as int,
        );
    }
}

} // verus!
