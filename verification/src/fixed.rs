//! Q47.16 fixed-point scalar arithmetic.
//!
//! Every scalar in this crate is an `i64` holding `value * 65536`, so one
//! unit of the underlying integer is `2^-16`. Products and quotients are
//! evaluated exactly in `i128` and then truncated toward zero, which is the
//! rounding mode of Rust's integer division; the spec functions below mirror
//! that semantics exactly, so contracts pin results down to the last bit.

use vstd::arithmetic::div_mod::{lemma_div_is_ordered, lemma_div_pos_is_pos};
use vstd::prelude::*;

verus! {

/// The fixed-point representation of 1.0.
pub const ONE: i64 = 65536;

/// Truncating (round-toward-zero) division, the semantics of Rust's `/` on
/// signed integers, defined for positive divisors.
pub open spec fn tdiv(a: int, d: int) -> int
    recommends
        d >= 1,
{
    if a >= 0 {
        a / d
    } else {
        -((-a) / d)
    }
}

/// Fixed-point product: the exact integer product rescaled by `2^-16`,
/// truncated toward zero.
pub open spec fn fmul(a: int, b: int) -> int {
    tdiv(a * b, 65536)
}

/// Fixed-point quotient for a positive divisor, truncated toward zero.
pub open spec fn fdiv(a: int, b: int) -> int
    recommends
        b >= 1,
{
    tdiv(a * 65536, b)
}

/// Whether a mathematical integer is representable as an `i64`.
pub open spec fn fits_i64(x: int) -> bool {
    i64::MIN <= x <= i64::MAX
}

/// The integer square root, floor(sqrt(n)), as a recursive definition.
pub open spec fn sqrt_floor(n: int) -> int
    decreases n,
{
    if n <= 0 {
        0
    } else {
        let p = sqrt_floor(n - 1);
        if (p + 1) * (p + 1) <= n {
            p + 1
        } else {
            p
        }
    }
}

/// Square root of a fixed-point value: rescaling by `2^16` before the
/// integer square root keeps the result in the same Q47.16 format.
pub open spec fn fsqrt(x: int) -> int {
    sqrt_floor(x * 65536)
}

/// `sqrt_floor(n)` is the unique `r >= 0` with `r * r <= n < (r + 1) * (r + 1)`.
pub proof fn lemma_sqrt_floor_bounds(n: int)
    requires
        n >= 0,
    ensures
        0 <= sqrt_floor(n),
        sqrt_floor(n) * sqrt_floor(n) <= n,
        n < (sqrt_floor(n) + 1) * (sqrt_floor(n) + 1),
    decreases n,
{
    if n == 0 {
        assert(sqrt_floor(0) == 0);
    } else {
        lemma_sqrt_floor_bounds(n - 1);
        let p = sqrt_floor(n - 1);
        if (p + 1) * (p + 1) <= n {
            assert(n < (p + 2) * (p + 2)) by (nonlinear_arith)
                requires
                    n - 1 < (p + 1) * (p + 1),
                    p >= 0,
            ;
        }
    }
}

/// Any `r` satisfying the square-root bracketing equals `sqrt_floor(n)`.
pub proof fn lemma_sqrt_floor_unique(n: int, r: int)
    requires
        n >= 0,
        r >= 0,
        r * r <= n,
        n < (r + 1) * (r + 1),
    ensures
        r == sqrt_floor(n),
{
    lemma_sqrt_floor_bounds(n);
    let s = sqrt_floor(n);
    assert(r == s) by (nonlinear_arith)
        requires
            r >= 0,
            s >= 0,
            r * r <= n,
            n < (r + 1) * (r + 1),
            s * s <= n,
            n < (s + 1) * (s + 1),
    ;
}

/// Truncating division shrinks magnitudes: a bound on the dividend gives a
/// bound on the quotient.
pub proof fn lemma_tdiv_bound(a: int, d: int, m: int)
    requires
        d >= 1,
        0 <= m,
        -m <= a <= m,
    ensures
        -(m / d) <= tdiv(a, d) <= m / d,
        m / d >= 0,
{
    lemma_div_pos_is_pos(m, d);
    if a >= 0 {
        lemma_div_is_ordered(a, m, d);
        lemma_div_pos_is_pos(a, d);
    } else {
        lemma_div_is_ordered(-a, m, d);
        lemma_div_pos_is_pos(-a, d);
    }
}

/// A bound on both factors gives a bound on the fixed-point product.
pub proof fn lemma_fmul_bound(a: int, b: int, am: int, bm: int)
    requires
        0 <= am,
        0 <= bm,
        -am <= a <= am,
        -bm <= b <= bm,
    ensures
        -((am * bm) / 65536) <= fmul(a, b) <= (am * bm) / 65536,
        (am * bm) / 65536 >= 0,
{
    assert(-(am * bm) <= a * b <= am * bm) by (nonlinear_arith)
        requires
            -am <= a <= am,
            -bm <= b <= bm,
            0 <= am,
            0 <= bm,
    ;
    assert(am * bm >= 0) by (nonlinear_arith)
        requires
            0 <= am,
            0 <= bm,
    ;
    lemma_tdiv_bound(a * b, 65536, am * bm);
}

/// A bound on two factors bounds their exact product.
pub proof fn lemma_mul_abs(a: int, b: int, am: int, bm: int)
    requires
        0 <= am,
        0 <= bm,
        -am <= a <= am,
        -bm <= b <= bm,
    ensures
        -(am * bm) <= a * b <= am * bm,
        am * bm >= 0,
{
    assert(-(am * bm) <= a * b <= am * bm && am * bm >= 0) by (nonlinear_arith)
        requires
            -am <= a <= am,
            -bm <= b <= bm,
            0 <= am,
            0 <= bm,
    ;
}

/// Truncating division keeps the sign of the dividend (for positive divisors).
pub proof fn lemma_tdiv_sign(a: int, d: int)
    requires
        d >= 1,
    ensures
        a >= 0 ==> tdiv(a, d) >= 0,
        a <= 0 ==> tdiv(a, d) <= 0,
        tdiv(-a, d) == -tdiv(a, d),
{
    if a > 0 {
        lemma_div_pos_is_pos(a, d);
    }
    if a < 0 {
        lemma_div_pos_is_pos(-a, d);
    }
}

/// Truncating division is monotone in the dividend.
pub proof fn lemma_tdiv_mono(x: int, y: int, d: int)
    requires
        d >= 1,
        x <= y,
    ensures
        tdiv(x, d) <= tdiv(y, d),
{
    if x >= 0 {
        lemma_div_is_ordered(x, y, d);
    } else if y <= 0 {
        lemma_div_is_ordered(-y, -x, d);
    } else {
        lemma_div_pos_is_pos(-x, d);
        lemma_div_pos_is_pos(y, d);
    }
}

/// Truncating division of an exact multiple recovers the factor.
pub proof fn lemma_tdiv_exact(x: int, d: int)
    requires
        d >= 1,
    ensures
        tdiv(d * x, d) == x,
{
    if x >= 0 {
        assert(d * x >= 0) by (nonlinear_arith)
            requires
                x >= 0,
                d >= 1,
        ;
        vstd::arithmetic::div_mod::lemma_div_multiples_vanish(x, d);
    } else {
        assert(d * x <= 0 && -(d * x) == d * (-x)) by (nonlinear_arith)
            requires
                x < 0,
                d >= 1,
        ;
        vstd::arithmetic::div_mod::lemma_div_multiples_vanish(-x, d);
    }
}

/// A quotient of a dividend no larger than `l` (in magnitude) by `l` itself
/// stays within one fixed-point unit.
pub proof fn lemma_unit_quotient(x: int, l: int)
    requires
        l >= 1,
        -l <= x <= l,
    ensures
        -65536 <= fdiv(x, l) <= 65536,
{
    lemma_tdiv_bound(x * 65536, l, l * 65536);
    vstd::arithmetic::div_mod::lemma_div_multiples_vanish(65536, l);
}

/// A product of two attenuation factors in `[0, 1]` is again in `[0, 1]`.
pub proof fn lemma_unit_product(a: int, b: int)
    requires
        0 <= a <= 65536,
        0 <= b <= 65536,
    ensures
        0 <= fmul(a, b) <= 65536,
{
    lemma_mul_abs(a, b, 65536, b);
    assert(65536 * b == b * 65536) by (nonlinear_arith);
    lemma_tdiv_bound(a * b, 65536, b * 65536);
    vstd::arithmetic::div_mod::lemma_div_multiples_vanish(b, 65536);
    lemma_tdiv_sign(a * b, 65536);
    assert(a * b >= 0) by (nonlinear_arith)
        requires
            a >= 0,
            b >= 0,
    ;
}

/// Truncating `i128` division by a positive divisor, built from the unsigned
/// division that Verus models directly.
pub fn tdiv128(a: i128, d: i128) -> (r: i128)
    requires
        d >= 1,
        a > i128::MIN,
    ensures
        r == tdiv(a as int, d as int),
        -a <= r <= a || a <= r <= -a,
{
    proof {
        lemma_tdiv_bound(a as int, d as int, if a >= 0 { a as int } else { -a as int });
    }
    if a >= 0 {
        ((a as u128) / (d as u128)) as i128
    } else {
        let m: u128 = ((-a) as u128) / (d as u128);
        -(m as i128)
    }
}

/// Fixed-point multiplication; the exact product is formed in `i128`, so the
/// only demand on the caller is that the rescaled result fits an `i64`.
pub fn fx_mul(a: i64, b: i64) -> (r: i64)
    requires
        fits_i64(fmul(a as int, b as int)),
    ensures
        r == fmul(a as int, b as int),
{
    proof {
        assert((a as int) * (b as int) <= 0x4000_0000_0000_0000_0000_0000_0000_0000int
            && (a as int) * (b as int) >= -0x3fff_ffff_ffff_ffff_ffff_ffff_ffff_ffffint)
            by (nonlinear_arith)
            requires
                -0x8000_0000_0000_0000 <= a as int <= 0x7fff_ffff_ffff_ffff,
                -0x8000_0000_0000_0000 <= b as int <= 0x7fff_ffff_ffff_ffff,
        ;
    }
    let p: i128 = (a as i128) * (b as i128);
    let q = tdiv128(p, 65536);
    q as i64
}

/// Fixed-point division by a positive divisor.
pub fn fx_div(a: i64, b: i64) -> (r: i64)
    requires
        b >= 1,
        fits_i64(fdiv(a as int, b as int)),
    ensures
        r == fdiv(a as int, b as int),
{
    let p: i128 = (a as i128) * 65536;
    let q = tdiv128(p, b as i128);
    q as i64
}

/// Integer square root by bisection over the 64-bit result range.
pub fn isqrt_u128(x: u128) -> (r: u128)
    ensures
        r * r <= x < (r + 1) * (r + 1),
        r == sqrt_floor(x as int),
{
    let mut lo: u128 = 0;
    let mut hi: u128 = 0x1_0000_0000_0000_0000;
    while lo + 1 < hi
        invariant
            lo < hi <= 0x1_0000_0000_0000_0000,
            lo * lo <= x,
            x < hi * hi,
        decreases hi - lo,
    {
        let mid = lo + (hi - lo) / 2;
        proof {
            assert(mid * mid < 0x1_0000_0000_0000_0000_0000_0000_0000_0000int)
                by (nonlinear_arith)
                requires
                    mid < 0x1_0000_0000_0000_0000,
            ;
        }
        if mid * mid <= x {
            lo = mid;
        } else {
            hi = mid;
        }
    }
    proof {
        lemma_sqrt_floor_unique(x as int, lo as int);
    }
    lo
}

/// Fixed-point square root of a nonnegative value.
pub fn fx_sqrt(x: i64) -> (r: i64)
    requires
        x >= 0,
    ensures
        r == fsqrt(x as int),
        r >= 0,
{
    let s = isqrt_u128((x as u128) * 65536);
    proof {
        lemma_sqrt_floor_bounds(x as int * 65536);
        assert(s <= 0x1_0000_0000_0000) by (nonlinear_arith)
            requires
                (s as int) * (s as int) <= (x as int) * 65536,
                x as int <= 0x7fff_ffff_ffff_ffff,
                s >= 0,
        ;
    }
    s as i64
}

} // verus!
