//! Fixed-point scalar arithmetic for the tiling geometry.
//!
//! Every geometric quantity in this crate is a binary fixed-point number:
//! an `i128` holding the real value times `SCALE` (2^48). The resolution,
//! 2^-48 (about 3.6e-15), leaves a wide margin under the geometric
//! tolerances used by the multigrid construction, and all intermediate
//! products are proved to stay inside `i128`.

use vstd::prelude::*;
use vstd::arithmetic::div_mod::{
    lemma_div_is_ordered, lemma_div_multiples_vanish, lemma_div_pos_is_pos,
    lemma_fundamental_div_mod,
};

verus! {

/// One whole unit: 2^48.
pub const SCALE: i128 = 281474976710656;

/// One half unit: 2^47.
pub const HALF_SCALE: i128 = 140737488355328;

/// Largest product magnitude admitted into a fixed-point multiply: 2^126.
pub const P_LIMIT: i128 = 85070591730234615865843651857942052864;

/// pi at `SCALE`.
pub const PI_FX: i128 = 884279719003555;

/// 2*pi at `SCALE`.
pub const TWO_PI_FX: i128 = 1768559438007110;

/// pi/2 at `SCALE`.
pub const HALF_PI_FX: i128 = 442139859501778;

/// Largest angle accepted by the trigonometric routines: 2^61.
pub const ANGLE_MAX: i128 = 2305843009213693952;

pub open spec fn abs_v(x: int) -> int {
    if x >= 0 {
        x
    } else {
        -x
    }
}

/// Division truncated toward zero, the semantics of `/` on machine integers.
pub open spec fn tdiv(x: int, d: int) -> int {
    if x == 0 {
        0
    } else if x > 0 && d > 0 {
        x / d
    } else if x < 0 && d < 0 {
        (x * -1) / (d * -1)
    } else if x < 0 {
        ((x * -1) / d) * -1
    } else {
        (x / (d * -1)) * -1
    }
}

/// Fixed-point product: the real product, truncated toward zero at `SCALE`.
pub open spec fn fmul(a: int, b: int) -> int {
    tdiv(a * b, SCALE as int)
}

proof fn lemma_div_mag_core(x: int, d: int)
    requires
        x >= 0,
        d > 0,
    ensures
        0 <= x / d <= x,
        (x / d) * d <= x,
{
    assert(0 <= x / d && x / d <= x && (x / d) * d <= x) by (nonlinear_arith)
        requires
            x >= 0,
            d > 0,
    ;
}

pub proof fn lemma_tdiv_mag(x: int, d: int)
    requires
        d != 0,
    ensures
        abs_v(tdiv(x, d)) <= abs_v(x),
        abs_v(tdiv(x, d)) * abs_v(d) <= abs_v(x),
{
    let xx = abs_v(x);
    let dd = abs_v(d);
    lemma_div_mag_core(xx, dd);
    assert(tdiv(x, d) == xx / dd || tdiv(x, d) == -(xx / dd));
}

pub proof fn lemma_tdiv_le(x: int, d: int, b: int)
    requires
        d != 0,
        b >= 0,
        abs_v(x) <= b * abs_v(d),
    ensures
        abs_v(tdiv(x, d)) <= b,
{
    let xx = abs_v(x);
    let dd = abs_v(d);
    lemma_div_is_ordered(xx, b * dd, dd);
    assert(b * dd == dd * b);
    lemma_div_multiples_vanish(b, dd);
    lemma_div_pos_is_pos(xx, dd);
    assert(xx / dd <= b);
}

pub proof fn lemma_mul_bound(a: int, b: int, m: int, n: int)
    requires
        abs_v(a) <= m,
        abs_v(b) <= n,
    ensures
        -(m * n) <= a * b <= m * n,
        abs_v(a * b) <= m * n,
{
    assert(-(m * n) <= a * b <= m * n) by (nonlinear_arith)
        requires
            -m <= a <= m,
            -n <= b <= n,
            m >= 0,
            n >= 0,
    ;
}

pub proof fn lemma_floor_bounded(x: int, c: int)
    requires
        c >= 0,
        abs_v(x) <= c * (SCALE as int),
    ensures
        abs_v(x / (SCALE as int)) <= c,
{
    let s = SCALE as int;
    assert(c * s == s * c) by (nonlinear_arith);
    assert((-c) * s == s * (-c)) by (nonlinear_arith);
    assert((-c) * s == -(c * s)) by (nonlinear_arith);
    lemma_div_is_ordered(x, c * s, s);
    lemma_div_is_ordered((-c) * s, x, s);
    lemma_div_multiples_vanish(c, s);
    lemma_div_multiples_vanish(-c, s);
}

pub proof fn lemma_tdiv_neg(x: int, d: int)
    requires
        d != 0,
    ensures
        tdiv(-x, d) == -tdiv(x, d),
{
}

/// Truncating division on machine words.
pub fn tdiv_i(x: i128, d: i128) -> (r: i128)
    requires
        d != 0,
        x > i128::MIN,
    ensures
        r as int == tdiv(x as int, d as int),
        abs_v(r as int) <= abs_v(x as int),
{
    proof {
        lemma_tdiv_mag(x as int, d as int);
    }
    x.checked_div(d).unwrap()
}

/// Fixed-point multiplication.
pub fn fx_mul(a: i128, b: i128) -> (r: i128)
    requires
        -P_LIMIT <= (a as int) * (b as int) <= P_LIMIT,
    ensures
        r as int == fmul(a as int, b as int),
        abs_v(r as int) * (SCALE as int) <= abs_v((a as int) * (b as int)),
{
    let p: i128 = a * b;
    proof {
        lemma_tdiv_mag(p as int, SCALE as int);
    }
    tdiv_i(p, SCALE)
}

/// Floor of a fixed-point value, as a plain integer.
pub fn fx_floor(x: i128) -> (r: i128)
    ensures
        r as int == (x as int) / (SCALE as int),
        (r as int) * (SCALE as int) <= x as int,
        (x as int) < (r as int + 1) * (SCALE as int),
        abs_v(r as int) <= abs_v(x as int),
{
    proof {
        lemma_fundamental_div_mod(x as int, SCALE as int);
        assert(0 <= (x as int) % (SCALE as int) < SCALE as int) by (nonlinear_arith)
            requires
                SCALE as int > 0,
        ;
        let q = (x as int) / (SCALE as int);
        if x as int >= 0 {
            lemma_div_mag_core(x as int, SCALE as int);
        } else {
            assert(q * (SCALE as int) <= x as int);
            assert(q >= x as int) by (nonlinear_arith)
                requires
                    (x as int) < (q + 1) * (SCALE as int),
                    (x as int) < 0,
                    SCALE as int >= 1,
            ;
            assert(q <= 0) by (nonlinear_arith)
                requires
                    q * (SCALE as int) <= x as int,
                    (x as int) < 0,
                    SCALE as int >= 1,
            ;
        }
    }
    x.checked_div_euclid(SCALE).unwrap()
}

/// Fractional part of a fixed-point value, in `[0, SCALE)`.
pub fn fx_fract(x: i128) -> (r: i128)
    ensures
        r as int == (x as int) % (SCALE as int),
        0 <= r as int,
        (r as int) < SCALE as int,
{
    proof {
        assert(0 <= (x as int) % (SCALE as int) < SCALE as int) by (nonlinear_arith)
            requires
                SCALE as int > 0,
        ;
    }
    x.checked_rem_euclid(SCALE).unwrap()
}

/// Nearest integer to a fixed-point value, halves rounded up.
pub open spec fn spec_round(x: int) -> int {
    (x + HALF_SCALE as int) / (SCALE as int)
}

pub fn fx_round(x: i128) -> (r: i128)
    requires
        abs_v(x as int) <= i128::MAX - SCALE as int,
    ensures
        r as int == spec_round(x as int),
        abs_v(r as int) <= abs_v(x as int) / (SCALE as int) + 1,
{
    let r: i128 = fx_floor(x + HALF_SCALE);
    proof {
        let s = SCALE as int;
        let xi = x as int;
        assert(abs_v((xi + HALF_SCALE as int) / s) <= abs_v(xi) / s + 1) by (nonlinear_arith)
            requires
                s == SCALE as int,
                HALF_SCALE as int * 2 == s,
        ;
    }
    r
}

/// Ceiling of a fixed-point value, as a plain integer.
pub open spec fn spec_ceil(x: int) -> int {
    -((-x) / (SCALE as int))
}

pub fn fx_ceil(x: i128) -> (r: i128)
    requires
        x > i128::MIN,
    ensures
        r as int == spec_ceil(x as int),
        abs_v(r as int) <= abs_v(x as int),
{
    let f: i128 = fx_floor(-x);
    -f
}

/// The integer square root: the unique `r >= 0` with `r*r <= n < (r+1)*(r+1)`.
pub open spec fn sqrt_val(n: int) -> int {
    choose|r: int| 0 <= r && #[trigger] (r * r) <= n && n < (r + 1) * (r + 1)
}

pub proof fn lemma_sqrt_unique(n: int, r: int)
    requires
        0 <= r,
        r * r <= n,
        n < (r + 1) * (r + 1),
    ensures
        sqrt_val(n) == r,
{
    assert(exists|q: int| 0 <= q && #[trigger] (q * q) <= n && n < (q + 1) * (q + 1)) by {
        assert(0 <= r && r * r <= n && n < (r + 1) * (r + 1));
    }
    let q = sqrt_val(n);
    assert(q == r) by (nonlinear_arith)
        requires
            0 <= r,
            r * r <= n < (r + 1) * (r + 1),
            0 <= q,
            q * q <= n < (q + 1) * (q + 1),
    ;
}

/// Integer square root by bisection.
pub fn isqrt_u(n: u128) -> (r: u128)
    ensures
        (r as int) * (r as int) <= n as int,
        (n as int) < (r as int + 1) * (r as int + 1),
        r as int == sqrt_val(n as int),
{
    if n == 0 {
        proof {
            lemma_sqrt_unique(0, 0);
        }
        return 0;
    }
    let mut lo: u128 = 0;
    let mut hi: u128 = 18446744073709551616;  // 2^64
    proof {
        assert((hi as int) * (hi as int) > n as int) by (nonlinear_arith)
            requires
                hi as int == 18446744073709551616,
                (n as int) < 340282366920938463463374607431768211456,
        ;
    }
    while hi - lo > 1
        invariant
            0 <= lo < hi <= 18446744073709551616,
            (lo as int) * (lo as int) <= n as int,
            (n as int) < (hi as int) * (hi as int),
        decreases hi - lo,
    {
        let mid: u128 = lo + (hi - lo) / 2;
        proof {
            assert((mid as int) * (mid as int) < 340282366920938463463374607431768211456)
                by (nonlinear_arith)
                requires
                    0 <= mid as int,
                    (mid as int) < 18446744073709551616,
            ;
        }
        if mid * mid <= n {
            lo = mid;
        } else {
            hi = mid;
        }
    }
    proof {
        lemma_sqrt_unique(n as int, lo as int);
    }
    lo
}

/// Square root of a nonnegative fixed-point value, at `SCALE`.
pub open spec fn spec_fx_sqrt(x: int) -> int {
    sqrt_val(x * (SCALE as int))
}

/// Largest value accepted by `fx_sqrt`: 2^79.
pub const SQRT_IN_MAX: i128 = 604462909807314587353088;

/// One Horner step of a polynomial evaluation: `c + acc * s2`.
pub open spec fn horner_step(acc: int, s2: int, c: int) -> int {
    c + fmul(acc, s2)
}

fn horner_step_x(acc: i128, s2: i128, c: i128) -> (r: i128)
    requires
        0 <= s2 <= 3 * SCALE,
        abs_v(acc as int) <= 1152921504606846976,
        abs_v(c as int) <= SCALE as int,
    ensures
        r as int == horner_step(acc as int, s2 as int, c as int),
        abs_v(r as int) <= abs_v(c as int) + 3 * abs_v(acc as int) + 1,
{
    proof {
        lemma_mul_bound(acc as int, s2 as int, abs_v(acc as int), 3 * (SCALE as int));
        assert(abs_v(acc as int) * (3 * (SCALE as int)) == (3 * abs_v(acc as int)) * (
        SCALE as int)) by (nonlinear_arith);
        assert((3 * abs_v(acc as int)) * (SCALE as int) <= (3 * abs_v(acc as int) + 1) * (
        SCALE as int)) by (nonlinear_arith)
            requires
                SCALE as int >= 0,
        ;
        lemma_tdiv_le((acc as int) * (s2 as int), SCALE as int, 3 * abs_v(acc as int) + 1);
    }
    c + fx_mul(acc, s2)
}

/// The Taylor polynomial of the cosine in the squared argument, at
/// `SCALE`, valid on `[0, pi/2]`: terms through degree 16.
pub open spec fn spec_cos_poly(s2: int) -> int {
    horner_step(
        horner_step(
            horner_step(
                horner_step(
                    horner_step(
                        horner_step(
                            horner_step(horner_step(13, s2, -3229), s2, 587628),
                            s2,
                            -77566958,
                        ),
                        s2,
                        6981026208,
                    ),
                    s2,
                    -390937467654,
                ),
                s2,
                11728124029611,
            ),
            s2,
            -140737488355328,
        ),
        s2,
        281474976710656,
    )
}

fn cos_poly_x(s2: i128) -> (r: i128)
    requires
        0 <= s2 <= 3 * SCALE,
    ensures
        r as int == spec_cos_poly(s2 as int),
        abs_v(r as int) <= 3 * SCALE,
{
    let mut acc: i128 = 13;
    acc = horner_step_x(acc, s2, -3229);
    acc = horner_step_x(acc, s2, 587628);
    acc = horner_step_x(acc, s2, -77566958);
    acc = horner_step_x(acc, s2, 6981026208);
    acc = horner_step_x(acc, s2, -390937467654);
    acc = horner_step_x(acc, s2, 11728124029611);
    acc = horner_step_x(acc, s2, -140737488355328);
    acc = horner_step_x(acc, s2, 281474976710656);
    acc
}

/// The Taylor polynomial of `sin(s)/s` in the squared argument, at
/// `SCALE`, valid on `[0, pi/2]`: terms through degree 16.
pub open spec fn spec_sin_poly(s2: int) -> int {
    horner_step(
        horner_step(
            horner_step(
                horner_step(
                    horner_step(
                        horner_step(
                            horner_step(horner_step(1, s2, -215), s2, 45202),
                            s2,
                            -7051542,
                        ),
                        s2,
                        775669579,
                    ),
                    s2,
                    -55848209665,
                ),
                s2,
                2345624805922,
            ),
            s2,
            -46912496118443,
        ),
        s2,
        281474976710656,
    )
}

fn sin_poly_x(s2: i128) -> (r: i128)
    requires
        0 <= s2 <= 3 * SCALE,
    ensures
        r as int == spec_sin_poly(s2 as int),
        abs_v(r as int) <= 3 * SCALE,
{
    let mut acc: i128 = 1;
    acc = horner_step_x(acc, s2, -215);
    acc = horner_step_x(acc, s2, 45202);
    acc = horner_step_x(acc, s2, -7051542);
    acc = horner_step_x(acc, s2, 775669579);
    acc = horner_step_x(acc, s2, -55848209665);
    acc = horner_step_x(acc, s2, 2345624805922);
    acc = horner_step_x(acc, s2, -46912496118443);
    acc = horner_step_x(acc, s2, 281474976710656);
    acc
}

/// Saturates a value into `[-SCALE, SCALE]`, the fixed-point unit
/// interval that a sine or cosine may not leave.
pub open spec fn clamp_unit(x: int) -> int {
    if x > SCALE as int {
        SCALE as int
    } else if x < -(SCALE as int) {
        -(SCALE as int)
    } else {
        x
    }
}

pub fn clamp_unit_x(x: i128) -> (r: i128)
    ensures
        r as int == clamp_unit(x as int),
        abs_v(r as int) <= SCALE as int,
{
    if x > SCALE {
        SCALE
    } else if x < -SCALE {
        -SCALE
    } else {
        x
    }
}

pub open spec fn angle_red(t: int) -> int {
    t % (TWO_PI_FX as int)
}

pub open spec fn angle_quad(t: int) -> int {
    angle_red(t) / (HALF_PI_FX as int)
}

pub open spec fn angle_rem(t: int) -> int {
    angle_red(t) - angle_quad(t) * (HALF_PI_FX as int)
}

/// The cosine of a nonnegative fixed-point angle.
pub open spec fn spec_cos_fx(t: int) -> int {
    let q = angle_quad(t);
    let s = angle_rem(t);
    let s2 = fmul(s, s);
    if q == 0 {
        clamp_unit(spec_cos_poly(s2))
    } else if q == 1 {
        -clamp_unit(fmul(s, spec_sin_poly(s2)))
    } else if q == 2 {
        -clamp_unit(spec_cos_poly(s2))
    } else {
        clamp_unit(fmul(s, spec_sin_poly(s2)))
    }
}

/// The sine of a nonnegative fixed-point angle.
pub open spec fn spec_sin_fx(t: int) -> int {
    let q = angle_quad(t);
    let s = angle_rem(t);
    let s2 = fmul(s, s);
    if q == 0 {
        clamp_unit(fmul(s, spec_sin_poly(s2)))
    } else if q == 1 {
        clamp_unit(spec_cos_poly(s2))
    } else if q == 2 {
        -clamp_unit(fmul(s, spec_sin_poly(s2)))
    } else {
        -clamp_unit(spec_cos_poly(s2))
    }
}

/// The sine and cosine of a fixed-point angle, by quadrant reduction
/// and the Taylor polynomials above.
pub fn fx_sin_cos(t: i128) -> (r: (i128, i128))
    requires
        0 <= t <= ANGLE_MAX,
    ensures
        r.0 as int == spec_sin_fx(t as int),
        r.1 as int == spec_cos_fx(t as int),
        abs_v(r.0 as int) <= SCALE as int,
        abs_v(r.1 as int) <= SCALE as int,
{
    proof {
        assert(0 <= (t as int) % (TWO_PI_FX as int) < TWO_PI_FX as int) by (nonlinear_arith)
            requires
                TWO_PI_FX as int > 0,
        ;
    }
    let rem: i128 = t.checked_rem_euclid(TWO_PI_FX).unwrap();
    let q: i128 = tdiv_i(rem, HALF_PI_FX);
    proof {
        assert(tdiv(rem as int, HALF_PI_FX as int) == (rem as int) / (HALF_PI_FX as int));
        lemma_fundamental_div_mod(rem as int, HALF_PI_FX as int);
        assert(0 <= (rem as int) % (HALF_PI_FX as int) < HALF_PI_FX as int) by (nonlinear_arith)
            requires
                HALF_PI_FX as int > 0,
        ;
        assert((rem as int) / (HALF_PI_FX as int) < 4) by (nonlinear_arith)
            requires
                0 <= rem as int,
                (rem as int) < 4 * (HALF_PI_FX as int),
                HALF_PI_FX as int > 0,
        ;
        lemma_div_pos_is_pos(rem as int, HALF_PI_FX as int);
    }
    let s: i128 = rem - q * HALF_PI_FX;
    proof {
        lemma_mul_bound(s as int, s as int, HALF_PI_FX as int, HALF_PI_FX as int);
        lemma_tdiv_le((s as int) * (s as int), SCALE as int, 3 * (SCALE as int));
        lemma_div_pos_is_pos((s as int) * (s as int), SCALE as int);
        assert((s as int) * (s as int) >= 0) by (nonlinear_arith);
        assert(tdiv((s as int) * (s as int), SCALE as int) >= 0);
    }
    let s2: i128 = fx_mul(s, s);
    let c: i128 = clamp_unit_x(cos_poly_x(s2));
    let sp: i128 = sin_poly_x(s2);
    proof {
        lemma_mul_bound(s as int, sp as int, HALF_PI_FX as int, 3 * (SCALE as int));
    }
    let sv: i128 = clamp_unit_x(fx_mul(s, sp));
    if q == 0 {
        (sv, c)
    } else if q == 1 {
        (c, -sv)
    } else if q == 2 {
        (-sv, -c)
    } else {
        (-c, sv)
    }
}

pub fn fx_sqrt(x: i128) -> (r: i128)
    requires
        0 <= x,
        x <= SQRT_IN_MAX,
    ensures
        r as int == spec_fx_sqrt(x as int),
        0 <= r as int,
        (r as int) * (r as int) <= (x as int) * (SCALE as int),
{
    proof {
        assert((x as int) * (SCALE as int) <= 340282366920938463463374607431768211455int)
            by (nonlinear_arith)
            requires
                0 <= x as int <= SQRT_IN_MAX as int,
                SCALE as int == 281474976710656,
                SQRT_IN_MAX as int == 604462909807314587353088,
        ;
    }
    let wide: u128 = (x as u128) * (SCALE as u128);
    let r: u128 = isqrt_u(wide);
    proof {
        assert((r as int) * (r as int) <= wide as int);
        assert(r as int <= 170141183460469231731687303715884105727int) by (nonlinear_arith)
            requires
                0 <= r as int,
                (r as int) * (r as int) <= 340282366920938463463374607431768211455int,
        ;
    }
    r as i128
}

} // verus!
