//! Fixed-point scalar arithmetic.
//!
//! Every geometric quantity in the renderer is an `Fx`: a signed 64-bit
//! raw value carrying [`SCALE`] sub-units per whole unit.  All operations
//! saturate at the `i64` range instead of wrapping, and every executable
//! operation is specified exactly by a matching spec function.

use vstd::prelude::*;

verus! {

/// Number of raw sub-units per whole unit (16 fractional bits).
pub const SCALE: i64 = 65536;

/// Half of [`SCALE`], used for rounding to the nearest whole unit.
pub const HALF_SCALE: i64 = 32768;

/// A fixed-point scalar; the value represented is `raw / SCALE`.
#[derive(Clone, Copy, PartialEq, Eq, Structural, Debug)]
pub struct Fx {
    pub raw: i64,
}

/// Absolute value of a mathematical integer.
pub open spec fn iabs(x: int) -> int {
    if x < 0 { -x } else { x }
}

/// Clamp a mathematical integer into the `i64` range.
pub open spec fn sat64(x: int) -> int {
    if x > i64::MAX { i64::MAX as int } else if x < i64::MIN { i64::MIN as int } else { x }
}

/// Division truncating toward zero (the behaviour of machine division),
/// defined for any non-zero divisor via magnitudes.
pub open spec fn tdiv(a: int, b: int) -> int {
    if (a < 0) == (b < 0) { iabs(a) / iabs(b) } else { -(iabs(a) / iabs(b)) }
}

/// Saturating fixed-point addition.
pub open spec fn spec_add(a: Fx, b: Fx) -> Fx {
    Fx { raw: sat64(a.raw + b.raw) as i64 }
}

/// Saturating fixed-point subtraction.
pub open spec fn spec_sub(a: Fx, b: Fx) -> Fx {
    Fx { raw: sat64(a.raw - b.raw) as i64 }
}

/// Saturating fixed-point negation.
pub open spec fn spec_neg(a: Fx) -> Fx {
    Fx { raw: sat64(-a.raw) as i64 }
}

/// Saturating fixed-point multiplication: the product of the raw values,
/// rescaled by [`SCALE`] with truncation toward zero.
pub open spec fn spec_mul(a: Fx, b: Fx) -> Fx {
    Fx { raw: sat64(tdiv(a.raw * b.raw, SCALE as int)) as i64 }
}

/// Saturating fixed-point division (unspecified sign conventions never
/// arise: the divisor must be non-zero).
pub open spec fn spec_div(a: Fx, b: Fx) -> Fx {
    Fx { raw: sat64(tdiv(a.raw * SCALE, b.raw as int)) as i64 }
}

/// The fixed-point value of a whole number.
pub open spec fn spec_of_int(n: int) -> Fx {
    Fx { raw: sat64(n * SCALE) as i64 }
}

/// Largest whole number not above `a` (floor), as a plain integer.
/// Euclidean division by the positive [`SCALE`] is exactly floor.
pub open spec fn spec_floor_int(a: Fx) -> int {
    (a.raw as int) / (SCALE as int)
}

/// Fractional part of `a` as a raw sub-unit count, always in `[0, SCALE)`.
pub open spec fn spec_fract_raw(a: Fx) -> int {
    (a.raw as int) % (SCALE as int)
}

/// Nearest whole number to `a` (ties round up).
pub open spec fn spec_round_int(a: Fx) -> int {
    (a.raw + HALF_SCALE) / (SCALE as int)
}

impl Fx {
    /// The fixed-point image of a whole number, saturated at the `i64` range.
    pub fn of_int(n: i64) -> (r: Fx)
        ensures
            r == spec_of_int(n as int),
    {
        proof {
            assert(-0x80000000000000000000i128 <= (n as int) * (SCALE as int)
                <= 0x80000000000000000000i128) by (nonlinear_arith)
                requires -0x8000000000000000 <= n <= 0x7fffffffffffffff;
        }
        let wide: i128 = (n as i128) * (SCALE as i128);
        clamp_i128(wide)
    }

}

/// Clamp a 128-bit intermediate into an `Fx`.
fn clamp_i128(x: i128) -> (r: Fx)
    ensures
        r.raw == sat64(x as int),
{
    if x > i64::MAX as i128 {
        Fx { raw: i64::MAX }
    } else if x < i64::MIN as i128 {
        Fx { raw: i64::MIN }
    } else {
        Fx { raw: x as i64 }
    }
}

/// Magnitude of a raw value as an unsigned 64-bit integer.
fn abs_u64(x: i64) -> (r: u64)
    ensures
        r == iabs(x as int),
{
    if x >= 0 {
        x as u64
    } else {
        (-(x as i128)) as u64
    }
}

/// Rebuild a saturated `Fx` from a sign and a wide magnitude.
fn from_sign_mag(neg: bool, m: u128) -> (r: Fx)
    ensures
        r.raw == sat64(if neg { -(m as int) } else { m as int }),
{
    if neg {
        if m >= 9223372036854775808u128 {
            Fx { raw: i64::MIN }
        } else {
            Fx { raw: -(m as i64) }
        }
    } else {
        if m > i64::MAX as u128 {
            Fx { raw: i64::MAX }
        } else {
            Fx { raw: m as i64 }
        }
    }
}

/// Saturating addition.
pub fn fx_add(a: Fx, b: Fx) -> (r: Fx)
    ensures
        r == spec_add(a, b),
{
    let wide: i128 = a.raw as i128 + b.raw as i128;
    clamp_i128(wide)
}

/// Saturating subtraction.
pub fn fx_sub(a: Fx, b: Fx) -> (r: Fx)
    ensures
        r == spec_sub(a, b),
{
    let wide: i128 = a.raw as i128 - b.raw as i128;
    clamp_i128(wide)
}

/// Saturating negation.
pub fn fx_neg(a: Fx) -> (r: Fx)
    ensures
        r == spec_neg(a),
{
    let wide: i128 = -(a.raw as i128);
    clamp_i128(wide)
}

/// Saturating fixed-point multiplication.
pub fn fx_mul(a: Fx, b: Fx) -> (r: Fx)
    ensures
        r == spec_mul(a, b),
{
    let neg: bool = (a.raw < 0) != (b.raw < 0);
    let ma: u64 = abs_u64(a.raw);
    let mb: u64 = abs_u64(b.raw);
    proof {
        assert((ma as int) * (mb as int) <= 0x40000000000000000000000000000000int)
            by (nonlinear_arith)
            requires ma <= 0x8000000000000000u64, mb <= 0x8000000000000000u64;
    }
    let p: u128 = (ma as u128) * (mb as u128);
    let q: u128 = p / (SCALE as u128);
    proof {
        lemma_abs_mul(a.raw as int, b.raw as int);
    }
    from_sign_mag(neg, q)
}

/// Saturating fixed-point division by a non-zero divisor.
pub fn fx_div(a: Fx, b: Fx) -> (r: Fx)
    requires
        b.raw != 0,
    ensures
        r == spec_div(a, b),
{
    let neg: bool = (a.raw < 0) != (b.raw < 0);
    let ma: u64 = abs_u64(a.raw);
    let mb: u64 = abs_u64(b.raw);
    let p: u128 = (ma as u128) * (SCALE as u128);
    let q: u128 = p / (mb as u128);
    proof {
        lemma_abs_mul(a.raw as int, SCALE as int);
    }
    from_sign_mag(neg, q)
}

/// The magnitude of a product is the product of the magnitudes, and the
/// product is negative exactly when the factors' signs differ (and
/// neither factor is zero).
pub proof fn lemma_abs_mul(a: int, b: int)
    ensures
        iabs(a * b) == iabs(a) * iabs(b),
        a * b < 0 <==> ((a < 0) != (b < 0)) && a != 0 && b != 0,
{
    assert(iabs(a * b) == iabs(a) * iabs(b)
        && (a * b < 0 <==> ((a < 0) != (b < 0)) && a != 0 && b != 0)) by (nonlinear_arith);
}

/// Floor division of a (possibly negative) 65-bit quantity by [`SCALE`],
/// computed over unsigned magnitudes.
fn floor_div_scale(x: i128) -> (r: i64)
    requires
        -0x10000000000000000 <= x <= 0x10000000000000000,
    ensures
        r == x as int / (SCALE as int),
        -0x1000000000000 <= r <= 0x1000000000000,
{
    proof {
        vstd::arithmetic::div_mod::lemma_div_is_ordered(x as int, 0x10000000000000000int, SCALE as int);
        vstd::arithmetic::div_mod::lemma_div_is_ordered(-0x10000000000000000int, x as int, SCALE as int);
        assert((-0x10000000000000000int) / (SCALE as int) == -0x1000000000000int);
        assert(0x10000000000000000int / (SCALE as int) == 0x1000000000000int);
    }
    if x >= 0 {
        let q: u128 = (x as u128) / (SCALE as u128);
        q as i64
    } else {
        let m: u128 = (-x) as u128;
        let e: u128 = m + (SCALE as u128) - 1;
        let d: u128 = e / (SCALE as u128);
        proof {
            let mi = m as int;
            let s = SCALE as int;
            let di = (mi + s - 1) / s;
            vstd::arithmetic::div_mod::lemma_fundamental_div_mod(mi + s - 1, s);
            // `di * s - mi` lands in `[0, s)`, so `-di` is the floor quotient of `x`.
            vstd::arithmetic::div_mod::lemma_fundamental_div_mod_converse_div(
                x as int, s, -di, di * s - mi);
        }
        let neg: i128 = -(d as i128);
        neg as i64
    }
}

/// Floor of a fixed-point scalar, as a plain integer.
pub fn fx_floor_int(a: Fx) -> (r: i64)
    ensures
        r == spec_floor_int(a),
        -0x1000000000000 <= r <= 0x1000000000000,
{
    floor_div_scale(a.raw as i128)
}

/// Fractional part of a fixed-point scalar, as raw sub-units in `[0, SCALE)`.
pub fn fx_fract_raw(a: Fx) -> (r: i64)
    ensures
        r == spec_fract_raw(a),
        0 <= r < SCALE,
{
    let f: i64 = fx_floor_int(a);
    proof {
        vstd::arithmetic::div_mod::lemma_fundamental_div_mod(a.raw as int, SCALE as int);
        assert((f as int) * (SCALE as int) == (a.raw as int) - (a.raw as int) % (SCALE as int));
    }
    let rem: i128 = (a.raw as i128) - (f as i128) * (SCALE as i128);
    rem as i64
}

/// Nearest whole number to a fixed-point scalar (ties round up).
pub fn fx_round_int(a: Fx) -> (r: i64)
    ensures
        r == spec_round_int(a),
        -0x1000000000000 <= r <= 0x1000000000000,
{
    let shifted: i128 = (a.raw as i128) + (HALF_SCALE as i128);
    floor_div_scale(shifted)
}

/// One full turn (two pi) in raw sub-units.
pub const TWO_PI_RAW: i64 = 411775;

/// Half a turn (pi) in raw sub-units.
pub const PI_RAW: i64 = 205887;

/// Floor of the square root of a natural number.
pub open spec fn sqrt_floor(n: nat) -> nat
    decreases n,
{
    if n == 0 {
        0
    } else {
        let p = sqrt_floor((n - 1) as nat);
        if (p + 1) * (p + 1) <= n {
            p + 1
        } else {
            p
        }
    }
}

/// `sqrt_floor` is characterized by bracketing its argument between
/// consecutive squares.
pub proof fn lemma_sqrt_floor_bounds(n: nat)
    ensures
        sqrt_floor(n) * sqrt_floor(n) <= n,
        n < (sqrt_floor(n) + 1) * (sqrt_floor(n) + 1),
    decreases n,
{
    let s = sqrt_floor(n);
    if n == 0 {
        assert(s == 0);
        assert(s * s <= n && n < (s + 1) * (s + 1)) by (nonlinear_arith)
            requires s == 0nat, n == 0nat;
    } else {
        lemma_sqrt_floor_bounds((n - 1) as nat);
        let p = sqrt_floor((n - 1) as nat);
        assert(p * p <= n - 1 && n - 1 < (p + 1) * (p + 1));
        if (p + 1) * (p + 1) <= n {
            assert(s == p + 1);
            assert(s * s <= n && n < (s + 1) * (s + 1)) by (nonlinear_arith)
                requires
                    s == p + 1,
                    (p + 1) * (p + 1) <= n,
                    n <= (p + 1) * (p + 1);
        } else {
            assert(s == p);
            assert(s * s <= n && n < (s + 1) * (s + 1)) by (nonlinear_arith)
                requires
                    s == p,
                    p * p <= n - 1,
                    n < (p + 1) * (p + 1);
        }
    }
}

/// Only one natural number is bracketed between consecutive squares.
pub proof fn lemma_sqrt_floor_unique(n: nat, r: nat)
    requires
        r * r <= n,
        n < (r + 1) * (r + 1),
    ensures
        r == sqrt_floor(n),
{
    lemma_sqrt_floor_bounds(n);
    let s = sqrt_floor(n);
    assert(r == s) by (nonlinear_arith)
        requires
            r * r <= n,
            n < (r + 1) * (r + 1),
            s * s <= n,
            n < (s + 1) * (s + 1);
}

/// Floor of the square root, computed by binary search on the result.
pub fn isqrt_u128(n: u128) -> (r: u64)
    ensures
        r as nat == sqrt_floor(n as nat),
{
    let mut lo: u128 = 0;
    let mut hi: u128 = 0x10000000000000000;
    while lo + 1 < hi
        invariant
            (lo as nat) * (lo as nat) <= n as nat,
            (n as nat) < (hi as nat) * (hi as nat),
            lo < hi <= 0x10000000000000000,
        decreases hi - lo,
    {
        let mid: u128 = lo + (hi - lo) / 2;
        proof {
            assert((mid as nat) * (mid as nat) < 0x100000000000000000000000000000000nat)
                by (nonlinear_arith)
                requires mid < 0x10000000000000000u128;
        }
        if mid * mid <= n {
            lo = mid;
        } else {
            hi = mid;
        }
    }
    proof {
        lemma_sqrt_floor_unique(n as nat, lo as nat);
    }
    lo as u64
}

/// Truncating division of a raw value by a positive whole constant.
pub fn div_trunc_const(a: i64, k: i64) -> (r: i64)
    requires
        k > 0,
    ensures
        r == tdiv(a as int, k as int),
{
    if a >= 0 {
        let q: u64 = (a as u64) / (k as u64);
        q as i64
    } else {
        let m: u64 = (-(a as i128)) as u64;
        let q: u64 = m / (k as u64);
        (-(q as i128)) as i64
    }
}

/// Euclidean remainder of a raw value by a positive whole constant:
/// the result is always in `[0, k)`.
fn mod_euclid_const(a: i64, k: i64) -> (r: i64)
    requires
        k > 0,
    ensures
        r == (a as int) % (k as int),
        0 <= r < k,
{
    if a >= 0 {
        let q: u64 = (a as u64) % (k as u64);
        q as i64
    } else {
        let m: u64 = (-(a as i128)) as u64;
        let rm: u64 = m % (k as u64);
        proof {
            let mi = m as int;
            let ki = k as int;
            vstd::arithmetic::div_mod::lemma_fundamental_div_mod(mi, ki);
            let qi = mi / ki;
            let ri = mi % ki;
            if rm != 0 {
                assert((-qi - 1) * ki + (ki - ri) == -(ki * qi) - ri) by (nonlinear_arith);
                vstd::arithmetic::div_mod::lemma_fundamental_div_mod_converse_mod(
                    a as int, ki, -qi - 1, ki - ri);
            } else {
                assert((-qi) * ki == -(ki * qi)) by (nonlinear_arith);
                vstd::arithmetic::div_mod::lemma_fundamental_div_mod_converse_mod(
                    a as int, ki, -qi, 0);
            }
        }
        if rm == 0 {
            0
        } else {
            k - (rm as i64)
        }
    }
}

/// Clamp a raw sum into the unit interval `[-SCALE, SCALE]`.
pub open spec fn clamp_unit(t: int) -> int {
    if t > SCALE {
        SCALE as int
    } else if t < -SCALE {
        -SCALE as int
    } else {
        t
    }
}

/// An angle folded into one turn and recentred on `[-PI_RAW, PI_RAW]`.
pub open spec fn spec_reduce_angle(a: Fx) -> Fx {
    let r = (a.raw as int) % (TWO_PI_RAW as int);
    if r > PI_RAW {
        Fx { raw: (r - TWO_PI_RAW) as i64 }
    } else {
        Fx { raw: r as i64 }
    }
}

/// Odd polynomial approximating the sine on the reduced range, clamped
/// into the unit interval.
pub open spec fn spec_sin_poly(x: Fx) -> Fx {
    let x2 = spec_mul(x, x);
    let x3 = spec_mul(x2, x);
    let x5 = spec_mul(x3, x2);
    let x7 = spec_mul(x5, x2);
    let t = x.raw - tdiv(x3.raw as int, 6) + tdiv(x5.raw as int, 120) - tdiv(x7.raw as int, 5040);
    Fx { raw: clamp_unit(t) as i64 }
}

/// Even polynomial approximating the cosine on the reduced range, clamped
/// into the unit interval.
pub open spec fn spec_cos_poly(x: Fx) -> Fx {
    let x2 = spec_mul(x, x);
    let x4 = spec_mul(x2, x2);
    let x6 = spec_mul(x4, x2);
    let x8 = spec_mul(x4, x4);
    let t = SCALE - tdiv(x2.raw as int, 2) + tdiv(x4.raw as int, 24) - tdiv(x6.raw as int, 720)
        + tdiv(x8.raw as int, 40320);
    Fx { raw: clamp_unit(t) as i64 }
}

/// Sine of an angle given in fixed-point radians.
pub open spec fn spec_sin(a: Fx) -> Fx {
    spec_sin_poly(spec_reduce_angle(a))
}

/// Cosine of an angle given in fixed-point radians.
pub open spec fn spec_cos(a: Fx) -> Fx {
    spec_cos_poly(spec_reduce_angle(a))
}

/// Fold an angle into `[-PI_RAW, PI_RAW]`.
fn reduce_angle(a: Fx) -> (r: Fx)
    ensures
        r == spec_reduce_angle(a),
        -PI_RAW <= r.raw <= PI_RAW,
{
    let m: i64 = mod_euclid_const(a.raw, TWO_PI_RAW);
    if m > PI_RAW {
        Fx { raw: m - TWO_PI_RAW }
    } else {
        Fx { raw: m }
    }
}

/// Clamp a wide raw sum into the unit interval.
fn clamp_unit_exec(t: i128) -> (r: i64)
    ensures
        r == clamp_unit(t as int),
{
    if t > SCALE as i128 {
        SCALE
    } else if t < -(SCALE as i128) {
        -SCALE
    } else {
        t as i64
    }
}

/// Sine of an angle in fixed-point radians, always within `[-1, 1]`.
pub fn fx_sin(a: Fx) -> (r: Fx)
    ensures
        r == spec_sin(a),
        -SCALE <= r.raw <= SCALE,
{
    let x: Fx = reduce_angle(a);
    let x2: Fx = fx_mul(x, x);
    let x3: Fx = fx_mul(x2, x);
    let x5: Fx = fx_mul(x3, x2);
    let x7: Fx = fx_mul(x5, x2);
    let d3: i64 = div_trunc_const(x3.raw, 6);
    let d5: i64 = div_trunc_const(x5.raw, 120);
    let d7: i64 = div_trunc_const(x7.raw, 5040);
    let t: i128 = x.raw as i128 - d3 as i128 + d5 as i128 - d7 as i128;
    Fx { raw: clamp_unit_exec(t) }
}

/// Cosine of an angle in fixed-point radians, always within `[-1, 1]`.
pub fn fx_cos(a: Fx) -> (r: Fx)
    ensures
        r == spec_cos(a),
        -SCALE <= r.raw <= SCALE,
{
    let x: Fx = reduce_angle(a);
    let x2: Fx = fx_mul(x, x);
    let x4: Fx = fx_mul(x2, x2);
    let x6: Fx = fx_mul(x4, x2);
    let x8: Fx = fx_mul(x4, x4);
    let d2: i64 = div_trunc_const(x2.raw, 2);
    let d4: i64 = div_trunc_const(x4.raw, 24);
    let d6: i64 = div_trunc_const(x6.raw, 720);
    let d8: i64 = div_trunc_const(x8.raw, 40320);
    let t: i128 = SCALE as i128 - d2 as i128 + d4 as i128 - d6 as i128 + d8 as i128;
    Fx { raw: clamp_unit_exec(t) }
}

/// Multiplying by one changes nothing, in either order.
pub proof fn lemma_mul_one(a: Fx)
    ensures
        spec_mul(a, Fx { raw: SCALE }) == a,
        spec_mul(Fx { raw: SCALE }, a) == a,
{
    lemma_abs_mul(a.raw as int, SCALE as int);
    lemma_abs_mul(SCALE as int, a.raw as int);
    vstd::arithmetic::div_mod::lemma_div_multiples_vanish(iabs(a.raw as int), SCALE as int);
    assert(iabs(a.raw as int) * SCALE == SCALE * iabs(a.raw as int)) by (nonlinear_arith);
}

/// Multiplying by zero gives zero, in either order.
pub proof fn lemma_mul_zero(a: Fx)
    ensures
        spec_mul(a, Fx { raw: 0i64 }) == (Fx { raw: 0i64 }),
        spec_mul(Fx { raw: 0i64 }, a) == (Fx { raw: 0i64 }),
{
    assert(a.raw as int * 0 == 0) by (nonlinear_arith);
    assert(0 * (a.raw as int) == 0) by (nonlinear_arith);
}

/// Adding zero changes nothing, in either order.
pub proof fn lemma_add_zero(a: Fx)
    ensures
        spec_add(a, Fx { raw: 0i64 }) == a,
        spec_add(Fx { raw: 0i64 }, a) == a,
{
}

/// At angle zero the sine is exactly zero and the cosine exactly one.
pub proof fn lemma_trig_zero()
    ensures
        spec_sin(Fx { raw: 0i64 }) == (Fx { raw: 0i64 }),
        spec_cos(Fx { raw: 0i64 }) == (Fx { raw: SCALE }),
{
    let z = Fx { raw: 0i64 };
    assert(0int % (TWO_PI_RAW as int) == 0) by {
        vstd::arithmetic::div_mod::lemma_small_mod(0nat, TWO_PI_RAW as nat);
    }
    assert(spec_reduce_angle(z) == z);
    lemma_mul_zero(z);
    assert(spec_sin_poly(z) == z);
    assert(spec_cos_poly(z) == (Fx { raw: SCALE }));
}

} // verus!
