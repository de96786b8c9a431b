//! Fixed-point trigonometry.
//!
//! Angles are `i64` ticks of `SCALE` per radian. Each executable
//! function computes a polynomial approximation in exact integer
//! arithmetic and is proved equal to its spec-level mirror, so callers
//! reason about one precisely defined value. The approximations are
//! accurate to a few parts in a hundred thousand, ample for a damped
//! relaxation solver that re-measures the geometry every substep.

use vstd::prelude::*;
use crate::fixed::{
    SCALE, MAX_COORD, PI_FIXED, HALF_PI_FIXED, QUARTER_PI_FIXED, TWO_PI_FIXED, clamp_spec,
    isqrt_spec, isqrt, lemma_isqrt_below, lemma_mul_nonneg_bound, lemma_square_bound,
    lemma_div_pos_bound, lemma_ratio_le_scale,
};

verus! {

/// An arbitrary angle brought into `[0, TWO_PI_FIXED)` by the
/// truncating remainder and one corrective add.
pub open spec fn wrap_angle_spec(a: int) -> int {
    let a2 = if a == i64::MIN { a + TWO_PI_FIXED } else { a };
    let m = if a2 >= 0 {
        a2 % (TWO_PI_FIXED as int)
    } else {
        -((-a2) % (TWO_PI_FIXED as int))
    };
    if m < 0 {
        m + TWO_PI_FIXED
    } else {
        m
    }
}

/// Quarter-wave sine polynomial on `[0, HALF_PI_FIXED]`: the Taylor
/// series through the ninth power, evaluated in ticks and clamped
/// into `[0, SCALE]`.
pub open spec fn sin_quarter_spec(x: int) -> int {
    let x2 = x * x / (SCALE as int);
    let x3 = x2 * x / (SCALE as int);
    let x5 = x3 * x2 / (SCALE as int);
    let x7 = x5 * x2 / (SCALE as int);
    let x9 = x7 * x2 / (SCALE as int);
    clamp_spec(x - x3 / 6 + x5 / 120 - x7 / 5040 + x9 / 362_880, 0, SCALE as int)
}

/// Sine of an angle in ticks, by range reduction to a quarter wave.
pub open spec fn sin_spec(a: int) -> int {
    let w = wrap_angle_spec(a);
    let neg = w > PI_FIXED;
    let h = if neg { w - PI_FIXED } else { w };
    let q = if h > HALF_PI_FIXED {
        PI_FIXED - h
    } else {
        h
    };
    if neg {
        -sin_quarter_spec(q)
    } else {
        sin_quarter_spec(q)
    }
}

/// Cosine via the shift `cos x == sin (x + pi/2)`.
pub open spec fn cos_spec(a: int) -> int {
    sin_spec(wrap_angle_spec(a) + HALF_PI_FIXED)
}

/// Arctangent polynomial on `[0, SCALE]` (a ratio in `[0, 1]`),
/// returning ticks in `[0, QUARTER_PI_FIXED]`.
pub open spec fn atan_unit_spec(z: int) -> int {
    let lin = z * (QUARTER_PI_FIXED as int) / (SCALE as int);
    let corr = z * ((SCALE as int) - z) / (SCALE as int) * (244_700 + 66_300 * z / (SCALE as int))
        / (SCALE as int);
    lin + corr
}

/// Four-quadrant arctangent of `y / x` in ticks, in
/// `[-PI_FIXED, PI_FIXED]`; zero when both arguments are zero.
pub open spec fn atan2_spec(y: int, x: int) -> int {
    let ax = if x < 0 { -x } else { x };
    let ay = if y < 0 { -y } else { y };
    if ax == 0 && ay == 0 {
        0
    } else {
        let base = if ax >= ay {
            atan_unit_spec(ay * (SCALE as int) / ax)
        } else {
            (HALF_PI_FIXED as int) - atan_unit_spec(ax * (SCALE as int) / ay)
        };
        if x >= 0 && y >= 0 {
            base
        } else if x < 0 && y >= 0 {
            (PI_FIXED as int) - base
        } else if x < 0 {
            base - (PI_FIXED as int)
        } else {
            -base
        }
    }
}

/// Arccosine of a ratio in `[-SCALE, SCALE]`, in ticks in
/// `[0, PI_FIXED]`, via `acos d == atan2(sqrt(1 - d^2), d)`.
pub open spec fn acos_spec(d: int) -> int {
    let s = isqrt_spec(((SCALE as int) * (SCALE as int) - d * d) as nat);
    atan2_spec(s as int, d)
}

/// Bring any angle into `[0, TWO_PI_FIXED)`.
pub fn wrap_angle(a: i64) -> (r: i64)
    ensures
        r == wrap_angle_spec(a as int),
        0 <= r < TWO_PI_FIXED,
{
    let a2 = if a == i64::MIN { a + TWO_PI_FIXED } else { a };
    let m = a2 % TWO_PI_FIXED;
    if m < 0 {
        m + TWO_PI_FIXED
    } else {
        m
    }
}

/// Quarter-wave sine polynomial.
fn sin_quarter(x: i64) -> (r: i64)
    requires
        0 <= x <= HALF_PI_FIXED,
    ensures
        r == sin_quarter_spec(x as int),
        0 <= r <= SCALE,
{
    let xw = x as i128;
    let sc = SCALE as i128;
    proof {
        lemma_mul_nonneg_bound(xw as int, xw as int, 1_570_796, 1_570_796);
        lemma_div_pos_bound(xw as int * xw as int, 1_000_000, 1_570_796int * 1_570_796);
    }
    let x2 = xw * xw / sc;
    proof {
        assert(0 <= x2 <= 2_467_401);
        lemma_mul_nonneg_bound(x2 as int, xw as int, 2_467_401, 1_570_796);
        lemma_div_pos_bound(x2 as int * xw as int, 1_000_000, 2_467_401int * 1_570_796);
    }
    let x3 = x2 * xw / sc;
    proof {
        assert(0 <= x3 <= 3_875_784);
        lemma_mul_nonneg_bound(x3 as int, x2 as int, 3_875_784, 2_467_401);
        lemma_div_pos_bound(x3 as int * x2 as int, 1_000_000, 3_875_784int * 2_467_401);
    }
    let x5 = x3 * x2 / sc;
    proof {
        assert(0 <= x5 <= 9_563_116);
        lemma_mul_nonneg_bound(x5 as int, x2 as int, 9_563_116, 2_467_401);
        lemma_div_pos_bound(x5 as int * x2 as int, 1_000_000, 9_563_116int * 2_467_401);
    }
    let x7 = x5 * x2 / sc;
    proof {
        assert(0 <= x7 <= 23_596_047);
        lemma_mul_nonneg_bound(x7 as int, x2 as int, 23_596_047, 2_467_401);
        lemma_div_pos_bound(x7 as int * x2 as int, 1_000_000, 23_596_047int * 2_467_401);
    }
    let x9 = x7 * x2 / sc;
    proof {
        assert(0 <= x9 <= 58_221_095);
    }
    let raw = xw - x3 / 6 + x5 / 120 - x7 / 5040 + x9 / 362_880;
    let clamped = if raw < 0 {
        0
    } else if raw > sc {
        sc
    } else {
        raw
    };
    clamped as i64
}

/// Sine of an angle in ticks.
pub fn sin_fixed(a: i64) -> (r: i64)
    ensures
        r == sin_spec(a as int),
        -SCALE <= r <= SCALE,
{
    let w = wrap_angle(a);
    let neg = w > PI_FIXED;
    let h = if neg { w - PI_FIXED } else { w };
    let q = if h > HALF_PI_FIXED { PI_FIXED - h } else { h };
    let s = sin_quarter(q);
    if neg {
        -s
    } else {
        s
    }
}

/// Cosine of an angle in ticks.
pub fn cos_fixed(a: i64) -> (r: i64)
    ensures
        r == cos_spec(a as int),
        -SCALE <= r <= SCALE,
{
    let w = wrap_angle(a);
    sin_fixed(w + HALF_PI_FIXED)
}

/// Arctangent polynomial for a ratio in `[0, 1]`.
fn atan_unit(z: i64) -> (r: i64)
    requires
        0 <= z <= SCALE,
    ensures
        r == atan_unit_spec(z as int),
        0 <= r <= HALF_PI_FIXED,
{
    let zw = z as i128;
    let sc = SCALE as i128;
    proof {
        lemma_mul_nonneg_bound(zw as int, QUARTER_PI_FIXED as int, 1_000_000, 785_398);
        lemma_div_pos_bound(zw as int * (QUARTER_PI_FIXED as int), 1_000_000,
            1_000_000int * 785_398);
    }
    let lin = zw * (QUARTER_PI_FIXED as i128) / sc;
    proof {
        assert(0 <= lin <= 785_398);
        lemma_mul_nonneg_bound(zw as int, sc as int - zw as int, 1_000_000, 1_000_000);
        lemma_div_pos_bound(zw as int * (sc as int - zw as int), 1_000_000,
            1_000_000int * 1_000_000);
    }
    let frac = zw * (sc - zw) / sc;
    let slope = 244_700 + 66_300 * zw / sc;
    proof {
        assert(0 <= frac <= 1_000_000);
        assert(244_700 <= slope <= 311_000);
        lemma_mul_nonneg_bound(frac as int, slope as int, 1_000_000, 311_000);
        lemma_div_pos_bound(frac as int * slope as int, 1_000_000, 1_000_000int * 311_000);
    }
    let corr = frac * slope / sc;
    (lin + corr) as i64
}

/// Four-quadrant arctangent in ticks.
pub fn atan2_fixed(y: i64, x: i64) -> (r: i64)
    requires
        -4 * MAX_COORD <= y <= 4 * MAX_COORD,
        -4 * MAX_COORD <= x <= 4 * MAX_COORD,
    ensures
        r == atan2_spec(y as int, x as int),
        -PI_FIXED <= r <= PI_FIXED,
        y >= 0 ==> r >= 0,
{
    let ax = if x < 0 { -x } else { x };
    let ay = if y < 0 { -y } else { y };
    if ax == 0 && ay == 0 {
        return 0;
    }
    let base = if ax >= ay {
        proof {
            lemma_ratio_le_scale(ay as int, ax as int, 1_000_000);
            lemma_mul_nonneg_bound(ay as int, 1_000_000, 4 * MAX_COORD as int, 1_000_000);
        }
        let ratio = ((ay as i128) * (SCALE as i128) / (ax as i128)) as i64;
        atan_unit(ratio)
    } else {
        proof {
            lemma_ratio_le_scale(ax as int, ay as int, 1_000_000);
            lemma_mul_nonneg_bound(ax as int, 1_000_000, 4 * MAX_COORD as int, 1_000_000);
        }
        let ratio = ((ax as i128) * (SCALE as i128) / (ay as i128)) as i64;
        HALF_PI_FIXED - atan_unit(ratio)
    };
    if x >= 0 && y >= 0 {
        base
    } else if x < 0 && y >= 0 {
        PI_FIXED - base
    } else if x < 0 {
        base - PI_FIXED
    } else {
        -base
    }
}

/// Arccosine of a ratio in `[-SCALE, SCALE]`, in ticks.
pub fn acos_fixed(d: i64) -> (r: i64)
    requires
        -SCALE <= d <= SCALE,
    ensures
        r == acos_spec(d as int),
        0 <= r <= PI_FIXED,
{
    proof {
        lemma_square_bound(d as int, 1_000_000);
    }
    let dd = (d as i128) * (d as i128);
    proof {
        assert(dd == (d as int) * (d as int));
        assert((SCALE as i128) as int * (SCALE as i128) as int == 1_000_000_000_000int)
            by (nonlinear_arith)
            requires
                (SCALE as i128) == 1_000_000,
        ;
    }
    let rad = ((SCALE as i128) * (SCALE as i128) - dd) as u128;
    proof {
        lemma_isqrt_below(rad as nat, 1_000_001nat);
    }
    let s = isqrt(rad);
    let sq = s as i64;
    atan2_fixed(sq, d)
}

} // verus!
