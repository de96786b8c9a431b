//! Fixed-point 2D vectors and rigid rotation helpers.
//!
//! A `Vec2` holds a point (or direction) in ticks of `SCALE` per world
//! unit. The solver keeps every anchor inside the coordinate box
//! `[-MAX_COORD, MAX_COORD]` on both axes, which keeps all derived
//! products comfortably inside 128-bit intermediates.

use vstd::prelude::*;
use crate::fixed::{
    SCALE, MAX_COORD, div_t, isqrt_spec, isqrt, lemma_isqrt_spec_bounds, lemma_isqrt_below,
    lemma_isqrt_monotone, lemma_isqrt_square, lemma_mul_bound, lemma_square_bound,
};
use crate::trig::{sin_spec, cos_spec, sin_fixed, cos_fixed};

verus! {

/// Largest distance between two in-box points, in ticks.
pub const MAX_DIST: i64 = 2_828_427_124_746;

/// A 2D point or direction in fixed-point ticks.
#[derive(Clone, Copy, PartialEq, Eq, Structural, Debug)]
pub struct Vec2 {
    pub x: i64,
    pub y: i64,
}

impl Vec2 {
    /// Both coordinates lie in the solver's coordinate box.
    pub open spec fn in_box(self) -> bool {
        &&& -MAX_COORD <= self.x <= MAX_COORD
        &&& -MAX_COORD <= self.y <= MAX_COORD
    }

    /// Build a vector from its coordinates.
    pub fn new(x: i64, y: i64) -> (r: Vec2)
        ensures
            r == (Vec2 { x, y }),
    {
        Vec2 { x, y }
    }

    /// Squared distance between two points, exactly.
    pub open spec fn len_sq_spec(a: Vec2, b: Vec2) -> int {
        (b.x - a.x) * (b.x - a.x) + (b.y - a.y) * (b.y - a.y)
    }

    /// Distance between two points: the floor square root of the exact
    /// squared distance.
    pub open spec fn dist_spec(a: Vec2, b: Vec2) -> int {
        isqrt_spec(Self::len_sq_spec(a, b) as nat) as int
    }

    /// Distance between two in-box points.
    pub fn dist(self, other: Vec2) -> (r: i64)
        requires
            self.in_box(),
            other.in_box(),
        ensures
            r == Vec2::dist_spec(self, other),
            0 <= r <= MAX_DIST,
    {
        proof {
            lemma_len_sq_bounds(self, other);
        }
        let dx = other.x as i128 - self.x as i128;
        let dy = other.y as i128 - self.y as i128;
        proof {
            lemma_square_bound(dx as int, 2 * MAX_COORD as int);
            lemma_square_bound(dy as int, 2 * MAX_COORD as int);
            assert((2 * MAX_COORD as int) * (2 * MAX_COORD as int)
                == 4_000_000_000_000_000_000_000_000int)
                by (nonlinear_arith)
                requires
                    MAX_COORD == 1_000_000_000_000i64,
            ;
        }
        let n = (dx * dx + dy * dy) as u128;
        proof {
            assert((MAX_DIST + 1) * (MAX_DIST + 1) == 8_000_000_000_004_581_499_814_009int)
                by (nonlinear_arith)
                requires
                    MAX_DIST == 2_828_427_124_746i64,
            ;
            lemma_isqrt_below(n as nat, (MAX_DIST + 1) as nat);
        }
        let s = isqrt(n);
        s as i64
    }

    /// Midpoint with truncating halving on each axis.
    pub open spec fn midpoint_spec(a: Vec2, b: Vec2) -> Vec2 {
        Vec2 { x: div_t(a.x + b.x, 2) as i64, y: div_t(a.y + b.y, 2) as i64 }
    }

    /// Midpoint of two in-box points; stays in the box.
    pub fn midpoint(self, other: Vec2) -> (r: Vec2)
        requires
            self.in_box(),
            other.in_box(),
        ensures
            r == Vec2::midpoint_spec(self, other),
            r.in_box(),
    {
        let mx = ((self.x as i128 + other.x as i128) / 2) as i64;
        let my = ((self.y as i128 + other.y as i128) / 2) as i64;
        Vec2 { x: mx, y: my }
    }

    /// The unit direction from `a` to `b`, in ticks: each component of
    /// `b - a` scaled by `SCALE` and divided by the distance.
    pub open spec fn unit_toward_spec(a: Vec2, b: Vec2) -> Vec2 {
        let d = Self::dist_spec(a, b);
        Vec2 {
            x: div_t((b.x - a.x) * SCALE, d) as i64,
            y: div_t((b.y - a.y) * SCALE, d) as i64,
        }
    }

    /// Unit direction from `a` to `b` for distinct in-box points. Each
    /// component has magnitude at most `SCALE`.
    pub fn unit_toward(self, other: Vec2) -> (r: Vec2)
        requires
            self.in_box(),
            other.in_box(),
            Vec2::dist_spec(self, other) > 0,
        ensures
            r == Vec2::unit_toward_spec(self, other),
            -SCALE <= r.x <= SCALE,
            -SCALE <= r.y <= SCALE,
    {
        let d = self.dist(other);
        proof {
            lemma_component_le_dist(self, other);
            lemma_mul_bound(other.x - self.x, SCALE as int, 2 * MAX_COORD as int,
                SCALE as int);
            lemma_mul_bound(other.y - self.y, SCALE as int, 2 * MAX_COORD as int,
                SCALE as int);
            lemma_unit_component_bound(other.x - self.x, d as int);
            lemma_unit_component_bound(other.y - self.y, d as int);
        }
        let nx = ((other.x as i128 - self.x as i128) * (SCALE as i128) / (d as i128)) as i64;
        let ny = ((other.y as i128 - self.y as i128) * (SCALE as i128) / (d as i128)) as i64;
        Vec2 { x: nx, y: ny }
    }
}

/// The squared distance of in-box points is nonnegative and below the
/// square that bounds `MAX_DIST`.
pub proof fn lemma_len_sq_bounds(a: Vec2, b: Vec2)
    requires
        a.in_box(),
        b.in_box(),
    ensures
        0 <= Vec2::len_sq_spec(a, b),
        Vec2::len_sq_spec(a, b) < (MAX_DIST + 1) * (MAX_DIST + 1),
        Vec2::dist_spec(a, b) <= MAX_DIST,
{
    lemma_square_bound(b.x - a.x, 2 * MAX_COORD as int);
    lemma_square_bound(b.y - a.y, 2 * MAX_COORD as int);
    assert((2 * MAX_COORD as int) * (2 * MAX_COORD as int)
        == 4_000_000_000_000_000_000_000_000int)
        by (nonlinear_arith)
        requires
            MAX_COORD == 1_000_000_000_000i64,
    ;
    assert((MAX_DIST + 1) * (MAX_DIST + 1) == 8_000_000_000_004_581_499_814_009int)
        by (nonlinear_arith)
        requires
            MAX_DIST == 2_828_427_124_746i64,
    ;
    lemma_isqrt_below(Vec2::len_sq_spec(a, b) as nat, (MAX_DIST + 1) as nat);
}

/// Each coordinate difference is bounded in magnitude by the distance.
pub proof fn lemma_component_le_dist(a: Vec2, b: Vec2)
    ensures
        -Vec2::dist_spec(a, b) <= b.x - a.x <= Vec2::dist_spec(a, b),
        -Vec2::dist_spec(a, b) <= b.y - a.y <= Vec2::dist_spec(a, b),
{
    let dx = b.x - a.x;
    let dy = b.y - a.y;
    let adx = if dx < 0 { -dx } else { dx };
    let ady = if dy < 0 { -dy } else { dy };
    assert(adx * adx == dx * dx) by (nonlinear_arith)
        requires
            adx == dx || adx == -dx,
    ;
    assert(ady * ady == dy * dy) by (nonlinear_arith)
        requires
            ady == dy || ady == -dy,
    ;
    assert(dx * dx >= 0 && dy * dy >= 0) by (nonlinear_arith);
    lemma_isqrt_square(adx as nat);
    lemma_isqrt_monotone((adx * adx) as nat, Vec2::len_sq_spec(a, b) as nat);
    lemma_isqrt_square(ady as nat);
    lemma_isqrt_monotone((ady * ady) as nat, Vec2::len_sq_spec(a, b) as nat);
}

/// A component no larger than the (positive) distance, scaled by
/// `SCALE` and divided by that distance, has magnitude at most `SCALE`.
pub proof fn lemma_unit_component_bound(c: int, d: int)
    by (nonlinear_arith)
    requires
        0 < d,
        -d <= c <= d,
    ensures
        -(SCALE as int) <= div_t(c * (SCALE as int), d) <= SCALE as int,
{
    assert(div_t(c * 1_000_000, d) == if c >= 0 {
        c * 1_000_000 / d
    } else {
        -((-c) * 1_000_000 / d)
    });
}

/// Exact result of rotating `p` about `c` by `ang` ticks: translate,
/// apply the fixed-point rotation matrix with truncating scaling,
/// translate back.
pub open spec fn rotate_around_spec(p: Vec2, c: Vec2, ang: int) -> Vec2 {
    let s = sin_spec(ang);
    let co = cos_spec(ang);
    let px = p.x - c.x;
    let py = p.y - c.y;
    Vec2 {
        x: (c.x + div_t(px * co - py * s, SCALE as int)) as i64,
        y: (c.y + div_t(px * s + py * co, SCALE as int)) as i64,
    }
}

/// Result of the capped rotation: the plain rotation if it moved the
/// point less than `lim`, else a step of length at most `lim` from the
/// old point toward the rotated one.
pub open spec fn rotate_lim_spec(p: Vec2, c: Vec2, ang: int, lim: int) -> Vec2 {
    let p2 = rotate_around_spec(p, c, ang);
    let d = isqrt_spec(Vec2::len_sq_spec(p, p2) as nat) as int;
    if d < lim {
        p2
    } else {
        Vec2 {
            x: (p.x + div_t((p2.x - p.x) * lim, d + 1)) as i64,
            y: (p.y + div_t((p2.y - p.y) * lim, d + 1)) as i64,
        }
    }
}

impl Vec2 {
    /// Rotate `self` about `center` by `ang_radians` ticks of angle:
    /// a rigid rotation, exact up to the fixed-point rounding that
    /// `rotate_around_spec` states.
    pub fn rotate_around_point(self, center: Vec2, ang_radians: i64) -> (r: Vec2)
        requires
            self.in_box(),
            center.in_box(),
        ensures
            r == rotate_around_spec(self, center, ang_radians as int),
            -5 * MAX_COORD <= r.x <= 5 * MAX_COORD,
            -5 * MAX_COORD <= r.y <= 5 * MAX_COORD,
    {
        let px = self.x as i128 - center.x as i128;
        let py = self.y as i128 - center.y as i128;
        let s = sin_fixed(ang_radians) as i128;
        let co = cos_fixed(ang_radians) as i128;
        proof {
            lemma_mul_bound(px as int, co as int, 2 * MAX_COORD as int, SCALE as int);
            lemma_mul_bound(py as int, s as int, 2 * MAX_COORD as int, SCALE as int);
            lemma_mul_bound(px as int, s as int, 2 * MAX_COORD as int, SCALE as int);
            lemma_mul_bound(py as int, co as int, 2 * MAX_COORD as int, SCALE as int);
            lemma_div_t_mag(px as int * co as int - py as int * s as int,
                4 * MAX_COORD as int * SCALE as int, SCALE as int);
            lemma_div_t_mag(px as int * s as int + py as int * co as int,
                4 * MAX_COORD as int * SCALE as int, SCALE as int);
        }
        let rx = div_i128(px * co - py * s, SCALE as i128);
        let ry = div_i128(px * s + py * co, SCALE as i128);
        Vec2 { x: (center.x as i128 + rx) as i64, y: (center.y as i128 + ry) as i64 }
    }

    /// Rotate `self` about `center` by `ang_radians` ticks, but never
    /// move the point further than `lim` ticks from where it was: the
    /// stability clamp used by the angle constraint.
    pub fn rotate_around_point_lim(self, center: Vec2, ang_radians: i64, lim: i64) -> (r: Vec2)
        requires
            self.in_box(),
            center.in_box(),
            1 <= lim <= SCALE,
        ensures
            r == rotate_lim_spec(self, center, ang_radians as int, lim as int),
            Vec2::len_sq_spec(self, r) <= lim * lim,
    {
        let p2 = self.rotate_around_point(center, ang_radians);
        proof {
            lemma_square_bound(p2.x - self.x, 6 * MAX_COORD as int);
            lemma_square_bound(p2.y - self.y, 6 * MAX_COORD as int);
            lemma_isqrt_below(Vec2::len_sq_spec(self, p2) as nat,
                8_485_281_374_239nat);
        }
        let dx = p2.x as i128 - self.x as i128;
        let dy = p2.y as i128 - self.y as i128;
        let dsq = (dx * dx + dy * dy) as u128;
        let d = isqrt(dsq) as i64;
        if d < lim {
            proof {
                lemma_isqrt_spec_bounds(dsq as nat);
                assert(Vec2::len_sq_spec(self, p2) <= lim * lim) by (nonlinear_arith)
                    requires
                        Vec2::len_sq_spec(self, p2) < (d + 1) * (d + 1),
                        d + 1 <= lim,
                        0 <= d,
                        Vec2::len_sq_spec(self, p2) >= 0,
                ;
            }
            p2
        } else {
            proof {
                lemma_isqrt_spec_bounds(dsq as nat);
                lemma_component_le_dist(self, p2);
                lemma_mul_bound(p2.x - self.x, lim as int, 6 * MAX_COORD as int, SCALE as int);
                lemma_mul_bound(p2.y - self.y, lim as int, 6 * MAX_COORD as int, SCALE as int);
                lemma_capped_step_bound(p2.x - self.x, p2.y - self.y, d as int, lim as int);
            }
            let cx = div_i128(dx * (lim as i128), d as i128 + 1) as i64;
            let cy = div_i128(dy * (lim as i128), d as i128 + 1) as i64;
            Vec2 { x: self.x + cx, y: self.y + cy }
        }
    }
}

/// Truncating division of an `i128` by a positive divisor.
pub fn div_i128(a: i128, b: i128) -> (r: i128)
    requires
        b > 0,
        a > i128::MIN,
    ensures
        r == div_t(a as int, b as int),
{
    a / b
}

/// Magnitude bound for a truncating division by a positive divisor.
pub proof fn lemma_div_t_mag(a: int, m: int, b: int)
    by (nonlinear_arith)
    requires
        -m <= a <= m,
        0 <= m,
        0 < b,
    ensures
        -(m / b) <= div_t(a, b) <= m / b,
{
    assert(div_t(a, b) == if a >= 0 {
        a / b
    } else {
        -((-a) / b)
    });
}

/// Squaring a truncating quotient and its divisor never exceeds the
/// squared dividend.
pub proof fn lemma_div_t_sq(a: int, b: int)
    requires
        0 < b,
    ensures
        div_t(a, b) * div_t(a, b) * (b * b) <= a * a,
{
    if a >= 0 {
        let q = a / b;
        vstd::arithmetic::div_mod::lemma_fundamental_div_mod(a, b);
        assert(q * q * (b * b) <= a * a) by (nonlinear_arith)
            requires
                q * b <= a,
                0 <= q,
                0 < b,
        ;
    } else {
        let q = (-a) / b;
        vstd::arithmetic::div_mod::lemma_fundamental_div_mod(-a, b);
        assert((-q) * (-q) * (b * b) <= a * a) by (nonlinear_arith)
            requires
                q * b <= -a,
                0 <= q,
                0 < b,
        ;
    }
}

/// The capped rotation step has squared length at most `lim * lim`:
/// both components are scaled by `lim / (d + 1)` where `d + 1` strictly
/// exceeds the true step length.
proof fn lemma_capped_step_bound(dx: int, dy: int, d: int, lim: int)
    requires
        0 < lim,
        0 <= d,
        dx * dx + dy * dy < (d + 1) * (d + 1),
    ensures
        div_t(dx * lim, d + 1) * div_t(dx * lim, d + 1) + div_t(dy * lim, d + 1) * div_t(
            dy * lim,
            d + 1,
        ) <= lim * lim,
        -lim <= div_t(dx * lim, d + 1) <= lim,
        -lim <= div_t(dy * lim, d + 1) <= lim,
{
    let dd = d + 1;
    let cx = div_t(dx * lim, dd);
    let cy = div_t(dy * lim, dd);
    lemma_div_t_sq(dx * lim, dd);
    lemma_div_t_sq(dy * lim, dd);
    assert((dx * lim) * (dx * lim) == dx * dx * (lim * lim)) by (nonlinear_arith);
    assert((dy * lim) * (dy * lim) == dy * dy * (lim * lim)) by (nonlinear_arith);
    assert(cx * cx + cy * cy <= lim * lim) by (nonlinear_arith)
        requires
            cx * cx * (dd * dd) <= dx * dx * (lim * lim),
            cy * cy * (dd * dd) <= dy * dy * (lim * lim),
            dx * dx + dy * dy < dd * dd,
            dd > 0,
            lim > 0,
    ;
    assert(-lim <= cx <= lim && -lim <= cy <= lim) by (nonlinear_arith)
        requires
            cx * cx + cy * cy <= lim * lim,
            lim > 0,
    ;
}

} // verus!
