//! Anchors, constraints, and their per-substep projection rules.
//!
//! Each constraint kind has a pure local correction: a function of the
//! referenced anchors' current positions and a per-substep strength.
//! Every executable projection is proved equal to its spec mirror, so
//! the whole relaxation pass has an exact mathematical description.

use vstd::prelude::*;
use vstd::pervasive::VecAdditionalExecFns;
use crate::fixed::{
    SCALE, MAX_COORD, TWO_PI_FIXED, div_t, clamp_spec, clamp_i64, lemma_mul_bound,
};
use crate::trig::{atan2_spec, acos_spec, atan2_fixed, acos_fixed};
use crate::vec2::{Vec2, MAX_DIST, rotate_lim_spec, rotate_around_spec};
use crate::vec2::lemma_div_t_mag;

verus! {

/// Largest accepted fixed-length target, in ticks.
pub const MAX_TARGET: i64 = 4_000_000_000_000;

/// Per-substep displacement cap for the angle constraint, in ticks
/// (one tenth of a world unit).
pub const ANGLE_CAP: i64 = 100_000;

/// Which axes of an anchor the solver must not move.
#[derive(Copy, Clone, PartialEq, Eq, Structural, Debug)]
pub enum PinMode {
    Unpinned,
    PinX,
    PinY,
    PinXY,
}

/// A solver-owned point: its live position, the position cached at the
/// start of the current substep, and its pin mode.
#[derive(Copy, Clone, PartialEq, Eq, Structural, Debug)]
pub struct AnchorPoint {
    pub p: Vec2,
    pub p_orig: Vec2,
    pub pin: PinMode,
}

impl AnchorPoint {
    /// Both stored positions lie in the coordinate box.
    pub open spec fn wf(self) -> bool {
        &&& self.p.in_box()
        &&& self.p_orig.in_box()
    }
}

/// Wants the distance from anchor `anc_a` to `anc_b` to equal
/// `target_len` ticks.
#[derive(Copy, Clone, PartialEq, Eq, Structural, Debug)]
pub struct FixedLengthConstraint {
    pub anc_a: usize,
    pub anc_b: usize,
    pub target_len: i64,
}

/// Wants segment `anc_a -> anc_b` parallel to `anc_c -> anc_d`.
#[derive(Copy, Clone, PartialEq, Eq, Structural, Debug)]
pub struct ParallelConstraint {
    pub anc_a: usize,
    pub anc_b: usize,
    pub anc_c: usize,
    pub anc_d: usize,
}

/// Wants the angle at vertex `anc_b` between rays toward `anc_a` and
/// `anc_c` to equal `target_angle` angle ticks.
#[derive(Copy, Clone, PartialEq, Eq, Structural, Debug)]
pub struct AngleConstraint {
    pub anc_a: usize,
    pub anc_b: usize,
    pub anc_c: usize,
    pub target_angle: i64,
}

/// A declared geometric relation between anchors.
#[derive(Copy, Clone, PartialEq, Eq, Structural, Debug)]
pub enum Constraint {
    FixedLength(FixedLengthConstraint),
    Parallel(ParallelConstraint),
    Angle(AngleConstraint),
}

impl Constraint {
    /// Every referenced anchor index is below `n`, and stored targets
    /// are within the ranges the projections accept.
    pub open spec fn wf(self, n: nat) -> bool {
        match self {
            Constraint::FixedLength(c) => {
                &&& c.anc_a < n
                &&& c.anc_b < n
                &&& 0 <= c.target_len <= MAX_TARGET
            },
            Constraint::Parallel(c) => {
                &&& c.anc_a < n
                &&& c.anc_b < n
                &&& c.anc_c < n
                &&& c.anc_d < n
            },
            Constraint::Angle(c) => {
                &&& c.anc_a < n
                &&& c.anc_b < n
                &&& c.anc_c < n
                &&& -TWO_PI_FIXED <= c.target_angle <= TWO_PI_FIXED
            },
        }
    }
}

/// `v` with both coordinates clamped into the coordinate box.
pub open spec fn clamp_box_spec(v: Vec2) -> Vec2 {
    Vec2 {
        x: clamp_spec(v.x as int, -MAX_COORD as int, MAX_COORD as int) as i64,
        y: clamp_spec(v.y as int, -MAX_COORD as int, MAX_COORD as int) as i64,
    }
}

/// Clamp a point into the coordinate box.
pub fn clamp_box(v: Vec2) -> (r: Vec2)
    ensures
        r == clamp_box_spec(v),
        r.in_box(),
{
    Vec2 { x: clamp_i64(v.x, -MAX_COORD, MAX_COORD), y: clamp_i64(v.y, -MAX_COORD, MAX_COORD) }
}

/// One correction component for the fixed-length rule: the unit
/// direction component times the length error, damped by half the
/// substep strength.
pub open spec fn fixed_len_corr_spec(n_comp: int, diff: int, strength: int) -> int {
    div_t(div_t(n_comp * diff, SCALE as int) * (strength / 2), SCALE as int)
}

/// Result of the fixed-length projection on positions `a`, `b`.
/// Coincident endpoints, or a correction that would leave the
/// coordinate box, leave both positions unchanged for this substep.
pub open spec fn eval_fixed_len_spec(c: FixedLengthConstraint, a: Vec2, b: Vec2, strength: int)
    -> (Vec2, Vec2) {
    let d = Vec2::dist_spec(a, b);
    if d == 0 {
        (a, b)
    } else {
        let n = Vec2::unit_toward_spec(a, b);
        let diff = d - c.target_len;
        let cx = fixed_len_corr_spec(n.x as int, diff, strength);
        let cy = fixed_len_corr_spec(n.y as int, diff, strength);
        let na = Vec2 { x: (a.x + cx) as i64, y: (a.y + cy) as i64 };
        let nb = Vec2 { x: (b.x - cx) as i64, y: (b.y - cy) as i64 };
        if na.in_box() && nb.in_box() {
            (na, nb)
        } else {
            (a, b)
        }
    }
}

impl FixedLengthConstraint {
    /// Move both endpoints toward the target length, splitting the
    /// correction symmetrically: what is added to `a` is subtracted
    /// from `b`, so their coordinate sums are invariant.
    pub fn eval(&self, a: Vec2, b: Vec2, strength: i64) -> (r: (Vec2, Vec2))
        requires
            a.in_box(),
            b.in_box(),
            0 <= self.target_len <= MAX_TARGET,
            0 <= strength <= SCALE,
        ensures
            r == eval_fixed_len_spec(*self, a, b, strength as int),
            r.0.in_box(),
            r.1.in_box(),
            r.0.x + r.1.x == a.x + b.x,
            r.0.y + r.1.y == a.y + b.y,
            Vec2::dist_spec(a, b) == 0 ==> r == (a, b),
    {
        let d = a.dist(b);
        if d == 0 {
            (a, b)
        } else {
            let n = a.unit_toward(b);
            let diff = d - self.target_len;
            let half = strength / 2;
            proof {
                lemma_mul_bound(n.x as int, diff as int, SCALE as int,
                    (MAX_TARGET + MAX_DIST) as int);
                lemma_mul_bound(n.y as int, diff as int, SCALE as int,
                    (MAX_TARGET + MAX_DIST) as int);
                lemma_div_t_mag(n.x as int * diff as int,
                    SCALE as int * (MAX_TARGET + MAX_DIST) as int, SCALE as int);
                lemma_div_t_mag(n.y as int * diff as int,
                    SCALE as int * (MAX_TARGET + MAX_DIST) as int, SCALE as int);
                lemma_mul_bound(
                    div_t(n.x as int * diff as int, SCALE as int), half as int,
                    (MAX_TARGET + MAX_DIST) as int, 500_000int);
                lemma_mul_bound(
                    div_t(n.y as int * diff as int, SCALE as int), half as int,
                    (MAX_TARGET + MAX_DIST) as int, 500_000int);
                lemma_div_t_mag(
                    div_t(n.x as int * diff as int, SCALE as int) * half,
                    (MAX_TARGET + MAX_DIST) as int * 500_000, SCALE as int);
                lemma_div_t_mag(
                    div_t(n.y as int * diff as int, SCALE as int) * half,
                    (MAX_TARGET + MAX_DIST) as int * 500_000, SCALE as int);
            }
            let cx = crate::vec2::div_i128(
                crate::vec2::div_i128((n.x as i128) * (diff as i128), SCALE as i128)
                    * (half as i128),
                SCALE as i128,
            ) as i64;
            let cy = crate::vec2::div_i128(
                crate::vec2::div_i128((n.y as i128) * (diff as i128), SCALE as i128)
                    * (half as i128),
                SCALE as i128,
            ) as i64;
            let na = Vec2 { x: a.x + cx, y: a.y + cy };
            let nb = Vec2 { x: b.x - cx, y: b.y - cy };
            let a_ok = -MAX_COORD <= na.x && na.x <= MAX_COORD && -MAX_COORD <= na.y && na.y
                <= MAX_COORD;
            let b_ok = -MAX_COORD <= nb.x && nb.x <= MAX_COORD && -MAX_COORD <= nb.y && nb.y
                <= MAX_COORD;
            if a_ok && b_ok {
                (na, nb)
            } else {
                (a, b)
            }
        }
    }
}

/// Clamping a point into the box never moves it further from an
/// in-box reference point: each axis shrinks toward the reference.
pub proof fn lemma_clamp_box_shrinks(p: Vec2, r: Vec2)
    requires
        p.in_box(),
    ensures
        Vec2::len_sq_spec(p, clamp_box_spec(r)) <= Vec2::len_sq_spec(p, r),
{
    let c = clamp_box_spec(r);
    let dx = r.x - p.x;
    let dy = r.y - p.y;
    let mx = if dx < 0 { -dx } else { dx };
    let my = if dy < 0 { -dy } else { dy };
    assert(mx * mx == dx * dx) by (nonlinear_arith)
        requires
            mx == dx || mx == -dx,
    ;
    assert(my * my == dy * dy) by (nonlinear_arith)
        requires
            my == dy || my == -dy,
    ;
    crate::fixed::lemma_square_bound(c.x - p.x, mx);
    crate::fixed::lemma_square_bound(c.y - p.y, my);
}

/// The damped rotation angle shared by the parallel and angle rules:
/// the error times half the substep strength.
pub open spec fn damped_angle_spec(err: int, strength: int) -> int {
    div_t(err * (strength / 2), SCALE as int)
}

/// Result of the parallel projection on segment `a1 -> b1` and segment
/// `a2 -> b2`: each segment rotates rigidly about its own midpoint,
/// one by the damped orientation difference and the other by its
/// negation, then each point is clamped into the coordinate box.
pub open spec fn eval_parallel_spec(a1: Vec2, b1: Vec2, a2: Vec2, b2: Vec2, strength: int)
    -> (Vec2, Vec2, Vec2, Vec2) {
    let ang1 = atan2_spec(b1.y - a1.y, b1.x - a1.x);
    let ang2 = atan2_spec(b2.y - a2.y, b2.x - a2.x);
    let ang = damped_angle_spec(ang2 - ang1, strength);
    let c1 = Vec2::midpoint_spec(a1, b1);
    let c2 = Vec2::midpoint_spec(a2, b2);
    (
        clamp_box_spec(rotate_around_spec(a1, c1, ang)),
        clamp_box_spec(rotate_around_spec(b1, c1, ang)),
        clamp_box_spec(rotate_around_spec(a2, c2, -ang)),
        clamp_box_spec(rotate_around_spec(b2, c2, -ang)),
    )
}

impl ParallelConstraint {
    /// Rotate both segments toward a shared mean orientation. Segment
    /// lengths are preserved up to fixed-point rounding, because each
    /// segment only rotates rigidly about its own midpoint.
    pub fn eval(&self, a1: Vec2, b1: Vec2, a2: Vec2, b2: Vec2, strength: i64) -> (r: (
        Vec2,
        Vec2,
        Vec2,
        Vec2,
    ))
        requires
            a1.in_box(),
            b1.in_box(),
            a2.in_box(),
            b2.in_box(),
            0 <= strength <= SCALE,
        ensures
            r == eval_parallel_spec(a1, b1, a2, b2, strength as int),
            r.0.in_box(),
            r.1.in_box(),
            r.2.in_box(),
            r.3.in_box(),
    {
        let ang1 = atan2_fixed(b1.y - a1.y, b1.x - a1.x);
        let ang2 = atan2_fixed(b2.y - a2.y, b2.x - a2.x);
        let half = strength / 2;
        proof {
            lemma_mul_bound(ang2 as int - ang1 as int, half as int, 6_283_186int, 500_000int);
            lemma_div_t_mag((ang2 as int - ang1 as int) * half, 6_283_186int * 500_000,
                SCALE as int);
        }
        let ang = crate::vec2::div_i128((ang2 as i128 - ang1 as i128) * (half as i128),
            SCALE as i128) as i64;
        let c1 = a1.midpoint(b1);
        let c2 = a2.midpoint(b2);
        let na1 = clamp_box(a1.rotate_around_point(c1, ang));
        let nb1 = clamp_box(b1.rotate_around_point(c1, ang));
        let na2 = clamp_box(a2.rotate_around_point(c2, -ang));
        let nb2 = clamp_box(b2.rotate_around_point(c2, -ang));
        (na1, nb1, na2, nb2)
    }
}

/// Result of the angle projection at vertex `b` between rays toward
/// `a` and `c`: both outer points rotate about the vertex by the
/// damped angle error, each displacement capped at `ANGLE_CAP` ticks,
/// then clamped into the coordinate box. A ray of zero length leaves
/// everything unchanged, and the dot product of the unit rays is
/// clamped into `[-SCALE, SCALE]` before the arccosine.
pub open spec fn eval_angle_spec(k: AngleConstraint, a: Vec2, b: Vec2, c: Vec2, strength: int)
    -> (Vec2, Vec2, Vec2) {
    let d1 = Vec2::dist_spec(b, a);
    let d2 = Vec2::dist_spec(b, c);
    if d1 == 0 || d2 == 0 {
        (a, b, c)
    } else {
        let ba = Vec2::unit_toward_spec(b, a);
        let bc = Vec2::unit_toward_spec(b, c);
        let dot = clamp_spec(div_t(ba.x * bc.x + ba.y * bc.y, SCALE as int), -SCALE as int,
            SCALE as int);
        let cur = acos_spec(dot);
        let ang = damped_angle_spec(cur - k.target_angle, strength);
        (
            clamp_box_spec(rotate_lim_spec(a, b, -ang, ANGLE_CAP as int)),
            b,
            clamp_box_spec(rotate_lim_spec(c, b, ang, ANGLE_CAP as int)),
        )
    }
}

impl AngleConstraint {
    /// Rotate the outer points toward the target angle, never moving
    /// either by more than `ANGLE_CAP` ticks in one substep. The
    /// vertex never moves.
    pub fn eval(&self, a: Vec2, b: Vec2, c: Vec2, strength: i64) -> (r: (Vec2, Vec2, Vec2))
        requires
            a.in_box(),
            b.in_box(),
            c.in_box(),
            -TWO_PI_FIXED <= self.target_angle <= TWO_PI_FIXED,
            0 <= strength <= SCALE,
        ensures
            r == eval_angle_spec(*self, a, b, c, strength as int),
            r.0.in_box(),
            r.1.in_box(),
            r.2.in_box(),
            r.1 == b,
            Vec2::len_sq_spec(a, r.0) <= ANGLE_CAP * ANGLE_CAP,
            Vec2::len_sq_spec(c, r.2) <= ANGLE_CAP * ANGLE_CAP,
            Vec2::dist_spec(b, a) == 0 || Vec2::dist_spec(b, c) == 0 ==> r == (a, b, c),
    {
        let d1 = b.dist(a);
        let d2 = b.dist(c);
        if d1 == 0 || d2 == 0 {
            proof {
                crate::fixed::lemma_square_bound(0, ANGLE_CAP as int);
                assert(Vec2::len_sq_spec(a, a) == 0);
                assert(Vec2::len_sq_spec(c, c) == 0);
            }
            (a, b, c)
        } else {
            let ba = b.unit_toward(a);
            let bc = b.unit_toward(c);
            proof {
                lemma_mul_bound(ba.x as int, bc.x as int, SCALE as int, SCALE as int);
                lemma_mul_bound(ba.y as int, bc.y as int, SCALE as int, SCALE as int);
                lemma_div_t_mag(ba.x as int * bc.x as int + ba.y as int * bc.y as int,
                    2_000_000_000_000int, SCALE as int);
            }
            let dot_raw = crate::vec2::div_i128(
                (ba.x as i128) * (bc.x as i128) + (ba.y as i128) * (bc.y as i128),
                SCALE as i128,
            ) as i64;
            let dot = clamp_i64(dot_raw, -SCALE, SCALE);
            let cur = acos_fixed(dot);
            let err = cur - self.target_angle;
            let half = strength / 2;
            proof {
                lemma_mul_bound(err as int, half as int, 9_424_779int, 500_000int);
                lemma_div_t_mag(err as int * half, 9_424_779int * 500_000, SCALE as int);
            }
            let ang = crate::vec2::div_i128((err as i128) * (half as i128), SCALE as i128)
                as i64;
            let ra = a.rotate_around_point_lim(b, -ang, ANGLE_CAP);
            let rc = c.rotate_around_point_lim(b, ang, ANGLE_CAP);
            proof {
                lemma_clamp_box_shrinks(a, ra);
                lemma_clamp_box_shrinks(c, rc);
            }
            let na = clamp_box(ra);
            let nc = clamp_box(rc);
            (na, b, nc)
        }
    }
}

/// Does `c` constrain exactly the unordered anchor pair `{a, b}` to a
/// fixed length?
pub open spec fn fixed_len_matches(c: Constraint, a: int, b: int) -> bool {
    match c {
        Constraint::FixedLength(f) => (f.anc_a == a && f.anc_b == b) || (f.anc_a == b
            && f.anc_b == a),
        _ => false,
    }
}

/// The first fixed-length constraint over the unordered pair `{a, b}`,
/// scanning in registration order.
pub open spec fn find_constraint_spec(s: Seq<Constraint>, a: int, b: int) -> Option<Constraint>
    decreases s.len(),
{
    if s.len() == 0 {
        None
    } else if fixed_len_matches(s[0], a, b) {
        Some(s[0])
    } else {
        find_constraint_spec(s.drop_first(), a, b)
    }
}

/// The initial angle at vertex `b` between rays toward `a` and `c`:
/// the arccosine of the clamped dot product of the unit rays. This is
/// what an angle constraint without an explicit target is set to.
pub open spec fn initial_angle_spec(a: Vec2, b: Vec2, c: Vec2) -> int {
    let ba = Vec2::unit_toward_spec(b, a);
    let bc = Vec2::unit_toward_spec(b, c);
    let dot = clamp_spec(div_t(ba.x * bc.x + ba.y * bc.y, SCALE as int), -SCALE as int,
        SCALE as int);
    acos_spec(dot)
}

/// The anchor store and constraint registry, relaxed together by
/// `eval_system`.
pub struct ConstraintSystem {
    pub anchors: Vec<AnchorPoint>,
    pub constraints: Vec<Constraint>,
}

impl ConstraintSystem {
    /// Every anchor is in the coordinate box and every constraint
    /// references only existing anchors, with targets in range.
    pub open spec fn wf(self) -> bool {
        &&& forall|i: int|
            0 <= i < self.anchors@.len() ==> (#[trigger] self.anchors@[i]).wf()
        &&& forall|i: int|
            0 <= i < self.constraints@.len() ==> (#[trigger] self.constraints@[i]).wf(
                self.anchors@.len(),
            )
    }

    /// An empty system.
    pub fn new() -> (r: Self)
        ensures
            r.anchors@.len() == 0,
            r.constraints@.len() == 0,
            r.wf(),
    {
        ConstraintSystem { anchors: Vec::new(), constraints: Vec::new() }
    }

    /// Append a new unpinned anchor at `p` and return its stable index.
    pub fn add_anchor(&mut self, p: Vec2) -> (index: usize)
        requires
            old(self).wf(),
            p.in_box(),
            old(self).anchors@.len() < usize::MAX,
        ensures
            final(self).wf(),
            index == old(self).anchors@.len(),
            final(self).anchors@ == old(self).anchors@.push(
                AnchorPoint { p, p_orig: p, pin: PinMode::Unpinned },
            ),
            final(self).constraints@ == old(self).constraints@,
    {
        let index = self.anchors.len();
        self.anchors.push(AnchorPoint { p, p_orig: p, pin: PinMode::Unpinned });
        proof {
            assert forall|i: int| 0 <= i < self.constraints@.len() implies (
            #[trigger] self.constraints@[i]).wf(self.anchors@.len()) by {
                assert(self.constraints@[i].wf(old(self).anchors@.len()));
            }
        }
        index
    }

    /// Find the first fixed-length constraint over the unordered pair
    /// `{a, b}`, in registration order; `None` if there is none.
    pub fn find_constraint(&self, a: usize, b: usize) -> (r: Option<Constraint>)
        ensures
            r == find_constraint_spec(self.constraints@, a as int, b as int),
    {
        let n = self.constraints.len();
        let ghost s = self.constraints@;
        proof {
            assert(s.skip(0) =~= s);
        }
        let mut i: usize = 0;
        while i < n
            invariant
                0 <= i <= n,
                n == s.len(),
                s == self.constraints@,
                find_constraint_spec(s.skip(i as int), a as int, b as int)
                    == find_constraint_spec(s, a as int, b as int),
            decreases n - i,
        {
            let c = self.constraints[i];
            let matches = match c {
                Constraint::FixedLength(f) => (f.anc_a == a && f.anc_b == b) || (f.anc_a == b
                    && f.anc_b == a),
                _ => false,
            };
            proof {
                assert(s.skip(i as int)[0] == s[i as int]);
                assert(s.skip(i as int).drop_first() =~= s.skip(i as int + 1));
            }
            if matches {
                return Some(c);
            }
            i = i + 1;
        }
        proof {
            assert(s.skip(n as int) =~= Seq::<Constraint>::empty());
        }
        None
    }

    /// Register a fixed-length constraint between anchors `a` and `b`.
    /// Without an explicit target the current distance is used.
    pub fn add_constraint_fixed_len(&mut self, a: usize, b: usize, target_len: Option<i64>)
        requires
            old(self).wf(),
            a < old(self).anchors@.len(),
            b < old(self).anchors@.len(),
            old(self).constraints@.len() < usize::MAX,
            target_len is Some ==> 0 <= target_len->0 <= MAX_TARGET,
        ensures
            final(self).wf(),
            final(self).anchors@ == old(self).anchors@,
            final(self).constraints@ == old(self).constraints@.push(
                Constraint::FixedLength(
                    FixedLengthConstraint {
                        anc_a: a,
                        anc_b: b,
                        target_len: match target_len {
                            Some(t) => t,
                            None => Vec2::dist_spec(
                                old(self).anchors@[a as int].p,
                                old(self).anchors@[b as int].p,
                            ) as i64,
                        },
                    },
                ),
            ),
    {
        let target_len = match target_len {
            Some(len) => len,
            None => {
                proof {
                    assert(self.anchors@[a as int].wf());
                    assert(self.anchors@[b as int].wf());
                }
                self.anchors[a].p.dist(self.anchors[b].p)
            },
        };
        self.constraints.push(
            Constraint::FixedLength(
                FixedLengthConstraint { anc_a: a, anc_b: b, target_len },
            ),
        );
    }

    /// Register a parallel constraint between segments `a -> b` and
    /// `c -> d`.
    pub fn add_constraint_parallel(&mut self, a: usize, b: usize, c: usize, d: usize)
        requires
            old(self).wf(),
            a < old(self).anchors@.len(),
            b < old(self).anchors@.len(),
            c < old(self).anchors@.len(),
            d < old(self).anchors@.len(),
            old(self).constraints@.len() < usize::MAX,
        ensures
            final(self).wf(),
            final(self).anchors@ == old(self).anchors@,
            final(self).constraints@ == old(self).constraints@.push(
                Constraint::Parallel(ParallelConstraint { anc_a: a, anc_b: b, anc_c: c, anc_d: d }),
            ),
    {
        self.constraints.push(
            Constraint::Parallel(ParallelConstraint { anc_a: a, anc_b: b, anc_c: c, anc_d: d }),
        );
    }

    /// Register an angle constraint at vertex `b` between rays toward
    /// `a` and `c`. Without an explicit target the current angle is
    /// used, which requires both rays to have nonzero length.
    pub fn add_constraint_angle(&mut self, a: usize, b: usize, c: usize, target_ang: Option<i64>)
        requires
            old(self).wf(),
            a < old(self).anchors@.len(),
            b < old(self).anchors@.len(),
            c < old(self).anchors@.len(),
            old(self).constraints@.len() < usize::MAX,
            match target_ang {
                Some(t) => -TWO_PI_FIXED <= t <= TWO_PI_FIXED,
                None => Vec2::dist_spec(
                    old(self).anchors@[b as int].p,
                    old(self).anchors@[a as int].p,
                ) > 0 && Vec2::dist_spec(
                    old(self).anchors@[b as int].p,
                    old(self).anchors@[c as int].p,
                ) > 0,
            },
        ensures
            final(self).wf(),
            final(self).anchors@ == old(self).anchors@,
            final(self).constraints@ == old(self).constraints@.push(
                Constraint::Angle(
                    AngleConstraint {
                        anc_a: a,
                        anc_b: b,
                        anc_c: c,
                        target_angle: match target_ang {
                            Some(t) => t,
                            None => initial_angle_spec(
                                old(self).anchors@[a as int].p,
                                old(self).anchors@[b as int].p,
                                old(self).anchors@[c as int].p,
                            ) as i64,
                        },
                    },
                ),
            ),
    {
        let target_ang = match target_ang {
            Some(t) => t,
            None => {
                proof {
                    assert(self.anchors@[a as int].wf());
                    assert(self.anchors@[b as int].wf());
                    assert(self.anchors@[c as int].wf());
                }
                let pa = self.anchors[a].p;
                let pb = self.anchors[b].p;
                let pc = self.anchors[c].p;
                let ba = pb.unit_toward(pa);
                let bc = pb.unit_toward(pc);
                proof {
                    lemma_mul_bound(ba.x as int, bc.x as int, SCALE as int, SCALE as int);
                    lemma_mul_bound(ba.y as int, bc.y as int, SCALE as int, SCALE as int);
                    lemma_div_t_mag(ba.x as int * bc.x as int + ba.y as int * bc.y as int,
                        2_000_000_000_000int, SCALE as int);
                }
                let dot_raw = crate::vec2::div_i128(
                    (ba.x as i128) * (bc.x as i128) + (ba.y as i128) * (bc.y as i128),
                    SCALE as i128,
                ) as i64;
                let dot = clamp_i64(dot_raw, -SCALE, SCALE);
                acos_fixed(dot)
            },
        };
        self.constraints.push(
            Constraint::Angle(AngleConstraint { anc_a: a, anc_b: b, anc_c: c, target_angle: target_ang }),
        );
    }

    /// Move anchor `ndx` toward `cursor` the way a drag does: a pinned
    /// axis keeps its current coordinate, and a fully pinned anchor
    /// does not move at all.
    pub fn drag_anchor(&mut self, ndx: usize, cursor: Vec2)
        requires
            old(self).wf(),
            ndx < old(self).anchors@.len(),
            cursor.in_box(),
        ensures
            final(self).wf(),
            final(self).constraints@ == old(self).constraints@,
            final(self).anchors@.len() == old(self).anchors@.len(),
            forall|i: int|
                0 <= i < old(self).anchors@.len() && i != ndx ==> final(self).anchors@[i] == old(
                    self,
                ).anchors@[i],
            final(self).anchors@[ndx as int].pin == old(self).anchors@[ndx as int].pin,
            final(self).anchors@[ndx as int].p_orig == old(self).anchors@[ndx as int].p_orig,
            final(self).anchors@[ndx as int].p == (match old(self).anchors@[ndx as int].pin {
                PinMode::Unpinned => cursor,
                PinMode::PinX => Vec2 { x: old(self).anchors@[ndx as int].p.x, y: cursor.y },
                PinMode::PinY => Vec2 { x: cursor.x, y: old(self).anchors@[ndx as int].p.y },
                PinMode::PinXY => old(self).anchors@[ndx as int].p,
            }),
    {
        let mut anc = self.anchors[ndx];
        let p = anc.p;
        anc.p = match anc.pin {
            PinMode::Unpinned => cursor,
            PinMode::PinX => Vec2 { x: p.x, y: cursor.y },
            PinMode::PinY => Vec2 { x: cursor.x, y: p.y },
            PinMode::PinXY => p,
        };
        proof {
            assert(old(self).anchors@[ndx as int].wf());
        }
        self.anchors.set(ndx, anc);
    }

    /// Set the pin mode of anchor `ndx`.
    pub fn set_pin(&mut self, ndx: usize, pin: PinMode)
        requires
            old(self).wf(),
            ndx < old(self).anchors@.len(),
        ensures
            final(self).wf(),
            final(self).constraints@ == old(self).constraints@,
            final(self).anchors@ == old(self).anchors@.update(
                ndx as int,
                AnchorPoint {
                    p: old(self).anchors@[ndx as int].p,
                    p_orig: old(self).anchors@[ndx as int].p_orig,
                    pin,
                },
            ),
    {
        let mut anc = self.anchors[ndx];
        anc.pin = pin;
        proof {
            assert(old(self).anchors@[ndx as int].wf());
        }
        self.anchors.set(ndx, anc);
    }

    /// Overwrite the position of anchor `ndx`, as the editor does when
    /// the user drags it directly.
    pub fn set_position(&mut self, ndx: usize, p: Vec2)
        requires
            old(self).wf(),
            ndx < old(self).anchors@.len(),
            p.in_box(),
        ensures
            final(self).wf(),
            final(self).constraints@ == old(self).constraints@,
            final(self).anchors@ == old(self).anchors@.update(
                ndx as int,
                AnchorPoint {
                    p,
                    p_orig: old(self).anchors@[ndx as int].p_orig,
                    pin: old(self).anchors@[ndx as int].pin,
                },
            ),
    {
        let mut anc = self.anchors[ndx];
        anc.p = p;
        proof {
            assert(old(self).anchors@[ndx as int].wf());
        }
        self.anchors.set(ndx, anc);
    }
}

impl Clone for ConstraintSystem {
    /// Deep copy: the clone's anchors and constraints view-equal the
    /// original's, so undo snapshots are faithful.
    fn clone(&self) -> (r: Self)
        ensures
            r.anchors@ == self.anchors@,
            r.constraints@ == self.constraints@,
    {
        ConstraintSystem {
            anchors: crate::fixed::clone_vec_copy(&self.anchors),
            constraints: crate::fixed::clone_vec_copy(&self.constraints),
        }
    }
}

impl Default for ConstraintSystem {
    /// An empty system.
    fn default() -> (r: Self)
        ensures
            r.anchors@.len() == 0,
            r.constraints@.len() == 0,
            r.wf(),
    {
        ConstraintSystem::new()
    }
}

/// Number of relaxation substeps per `eval_system` call.
pub const SOLVER_SUBSTEPS: u64 = 100;

/// Total correction strength per `eval_system` call, in ticks.
pub const BASE_STRENGTH: i64 = 5_000_000;

/// Correction strength per substep, in ticks:
/// `BASE_STRENGTH / SOLVER_SUBSTEPS`.
pub const SUBSTEP_STRENGTH: i64 = 50_000;

/// An anchor with its reference position refreshed to its live
/// position, as done at the start of every substep.
pub open spec fn snap_anchor_spec(a: AnchorPoint) -> AnchorPoint {
    AnchorPoint { p: a.p, p_orig: a.p, pin: a.pin }
}

/// The whole store snapshotted.
pub open spec fn snapshot_spec(s: Seq<AnchorPoint>) -> Seq<AnchorPoint> {
    Seq::new(s.len(), |i: int| snap_anchor_spec(s[i]))
}

/// Pin enforcement for one anchor: every pinned axis snaps back to the
/// reference position taken at the start of the substep.
pub open spec fn pin_anchor_spec(a: AnchorPoint) -> AnchorPoint {
    let p = match a.pin {
        PinMode::Unpinned => a.p,
        PinMode::PinX => Vec2 { x: a.p_orig.x, y: a.p.y },
        PinMode::PinY => Vec2 { x: a.p.x, y: a.p_orig.y },
        PinMode::PinXY => a.p_orig,
    };
    AnchorPoint { p, p_orig: a.p_orig, pin: a.pin }
}

/// Pin enforcement over the whole store.
pub open spec fn enforce_pins_spec(s: Seq<AnchorPoint>) -> Seq<AnchorPoint> {
    Seq::new(s.len(), |i: int| pin_anchor_spec(s[i]))
}

/// One constraint applied to the store: the projection runs on the
/// current positions of its anchors and the corrected positions are
/// written back in order, exactly as the sequential pass does.
pub open spec fn apply_constraint_spec(s: Seq<AnchorPoint>, c: Constraint, strength: int)
    -> Seq<AnchorPoint> {
    match c {
        Constraint::FixedLength(f) => {
            if f.anc_a < s.len() && f.anc_b < s.len() {
                let r = eval_fixed_len_spec(f, s[f.anc_a as int].p, s[f.anc_b as int].p, strength);
                let s1 = s.update(
                    f.anc_a as int,
                    AnchorPoint {
                        p: r.0,
                        p_orig: s[f.anc_a as int].p_orig,
                        pin: s[f.anc_a as int].pin,
                    },
                );
                s1.update(
                    f.anc_b as int,
                    AnchorPoint {
                        p: r.1,
                        p_orig: s1[f.anc_b as int].p_orig,
                        pin: s1[f.anc_b as int].pin,
                    },
                )
            } else {
                s
            }
        },
        Constraint::Parallel(f) => {
            if f.anc_a < s.len() && f.anc_b < s.len() && f.anc_c < s.len() && f.anc_d < s.len() {
                let r = eval_parallel_spec(
                    s[f.anc_a as int].p,
                    s[f.anc_b as int].p,
                    s[f.anc_c as int].p,
                    s[f.anc_d as int].p,
                    strength,
                );
                let s1 = s.update(
                    f.anc_a as int,
                    AnchorPoint {
                        p: r.0,
                        p_orig: s[f.anc_a as int].p_orig,
                        pin: s[f.anc_a as int].pin,
                    },
                );
                let s2 = s1.update(
                    f.anc_b as int,
                    AnchorPoint {
                        p: r.1,
                        p_orig: s1[f.anc_b as int].p_orig,
                        pin: s1[f.anc_b as int].pin,
                    },
                );
                let s3 = s2.update(
                    f.anc_c as int,
                    AnchorPoint {
                        p: r.2,
                        p_orig: s2[f.anc_c as int].p_orig,
                        pin: s2[f.anc_c as int].pin,
                    },
                );
                s3.update(
                    f.anc_d as int,
                    AnchorPoint {
                        p: r.3,
                        p_orig: s3[f.anc_d as int].p_orig,
                        pin: s3[f.anc_d as int].pin,
                    },
                )
            } else {
                s
            }
        },
        Constraint::Angle(f) => {
            if f.anc_a < s.len() && f.anc_b < s.len() && f.anc_c < s.len() {
                let r = eval_angle_spec(
                    f,
                    s[f.anc_a as int].p,
                    s[f.anc_b as int].p,
                    s[f.anc_c as int].p,
                    strength,
                );
                let s1 = s.update(
                    f.anc_a as int,
                    AnchorPoint {
                        p: r.0,
                        p_orig: s[f.anc_a as int].p_orig,
                        pin: s[f.anc_a as int].pin,
                    },
                );
                let s2 = s1.update(
                    f.anc_b as int,
                    AnchorPoint {
                        p: r.1,
                        p_orig: s1[f.anc_b as int].p_orig,
                        pin: s1[f.anc_b as int].pin,
                    },
                );
                s2.update(
                    f.anc_c as int,
                    AnchorPoint {
                        p: r.2,
                        p_orig: s2[f.anc_c as int].p_orig,
                        pin: s2[f.anc_c as int].pin,
                    },
                )
            } else {
                s
            }
        },
    }
}

/// The first `k` constraints applied in registration order.
pub open spec fn pass_spec(s: Seq<AnchorPoint>, cs: Seq<Constraint>, k: int, strength: int)
    -> Seq<AnchorPoint>
    decreases k,
{
    if k <= 0 {
        s
    } else {
        apply_constraint_spec(pass_spec(s, cs, k - 1, strength), cs[k - 1], strength)
    }
}

/// One full substep: snapshot, constraint pass, pin enforcement.
pub open spec fn substep_spec(s: Seq<AnchorPoint>, cs: Seq<Constraint>, strength: int)
    -> Seq<AnchorPoint> {
    enforce_pins_spec(pass_spec(snapshot_spec(s), cs, cs.len() as int, strength))
}

/// `steps` substeps of the relaxation.
pub open spec fn relax_spec(s: Seq<AnchorPoint>, cs: Seq<Constraint>, steps: nat, strength: int)
    -> Seq<AnchorPoint>
    decreases steps,
{
    if steps == 0 {
        s
    } else {
        substep_spec(relax_spec(s, cs, (steps - 1) as nat, strength), cs, strength)
    }
}

/// Applying one constraint changes only live positions: the length of
/// the store, every pin mode and every reference position survive.
pub proof fn lemma_apply_meta(s: Seq<AnchorPoint>, c: Constraint, strength: int)
    ensures
        apply_constraint_spec(s, c, strength).len() == s.len(),
        forall|i: int|
            0 <= i < s.len() ==> (#[trigger] apply_constraint_spec(s, c, strength)[i]).pin
                == s[i].pin && apply_constraint_spec(s, c, strength)[i].p_orig == s[i].p_orig,
{
}

/// A whole pass changes only live positions.
pub proof fn lemma_pass_meta(s: Seq<AnchorPoint>, cs: Seq<Constraint>, k: int, strength: int)
    requires
        k <= cs.len(),
    ensures
        pass_spec(s, cs, k, strength).len() == s.len(),
        forall|i: int|
            0 <= i < s.len() ==> (#[trigger] pass_spec(s, cs, k, strength)[i]).pin == s[i].pin
                && pass_spec(s, cs, k, strength)[i].p_orig == s[i].p_orig,
    decreases k,
{
    if k > 0 {
        lemma_pass_meta(s, cs, k - 1, strength);
        lemma_apply_meta(pass_spec(s, cs, k - 1, strength), cs[k - 1], strength);
    }
}

/// Across one substep, a pinned axis keeps its coordinate: the
/// snapshot stores it, the pass cannot touch reference positions, and
/// pin enforcement copies it back.
pub proof fn lemma_substep_pins(s: Seq<AnchorPoint>, cs: Seq<Constraint>, strength: int)
    ensures
        substep_spec(s, cs, strength).len() == s.len(),
        forall|i: int|
            0 <= i < s.len() ==> (#[trigger] substep_spec(s, cs, strength)[i]).pin == s[i].pin,
        forall|i: int|
            0 <= i < s.len() && (s[i].pin == PinMode::PinX || s[i].pin == PinMode::PinXY) ==> (
            #[trigger] substep_spec(s, cs, strength)[i]).p.x == s[i].p.x,
        forall|i: int|
            0 <= i < s.len() && (s[i].pin == PinMode::PinY || s[i].pin == PinMode::PinXY) ==> (
            #[trigger] substep_spec(s, cs, strength)[i]).p.y == s[i].p.y,
{
    lemma_pass_meta(snapshot_spec(s), cs, cs.len() as int, strength);
}

/// Across any number of substeps, a pinned axis never moves.
pub proof fn lemma_relax_pins(s: Seq<AnchorPoint>, cs: Seq<Constraint>, steps: nat, strength: int)
    ensures
        relax_spec(s, cs, steps, strength).len() == s.len(),
        forall|i: int|
            0 <= i < s.len() ==> (#[trigger] relax_spec(s, cs, steps, strength)[i]).pin
                == s[i].pin,
        forall|i: int|
            0 <= i < s.len() && (s[i].pin == PinMode::PinX || s[i].pin == PinMode::PinXY) ==> (
            #[trigger] relax_spec(s, cs, steps, strength)[i]).p.x == s[i].p.x,
        forall|i: int|
            0 <= i < s.len() && (s[i].pin == PinMode::PinY || s[i].pin == PinMode::PinXY) ==> (
            #[trigger] relax_spec(s, cs, steps, strength)[i]).p.y == s[i].p.y,
    decreases steps,
{
    if steps > 0 {
        lemma_relax_pins(s, cs, (steps - 1) as nat, strength);
        lemma_substep_pins(relax_spec(s, cs, (steps - 1) as nat, strength), cs, strength);
    }
}

impl ConstraintSystem {
    /// Overwrite the target of the fixed-length constraint at `ndx`,
    /// as a length slider in an editing panel does.
    pub fn set_fixed_len_target(&mut self, ndx: usize, target_len: i64)
        requires
            old(self).wf(),
            ndx < old(self).constraints@.len(),
            old(self).constraints@[ndx as int] is FixedLength,
            0 <= target_len <= MAX_TARGET,
        ensures
            final(self).wf(),
            final(self).anchors@ == old(self).anchors@,
            final(self).constraints@ == old(self).constraints@.update(
                ndx as int,
                Constraint::FixedLength(
                    FixedLengthConstraint {
                        anc_a: old(self).constraints@[ndx as int]->FixedLength_0.anc_a,
                        anc_b: old(self).constraints@[ndx as int]->FixedLength_0.anc_b,
                        target_len,
                    },
                ),
            ),
    {
        let c = self.constraints[ndx];
        proof {
            assert(old(self).constraints@[ndx as int].wf(old(self).anchors@.len()));
        }
        match c {
            Constraint::FixedLength(f) => {
                self.constraints.set(
                    ndx,
                    Constraint::FixedLength(
                        FixedLengthConstraint { anc_a: f.anc_a, anc_b: f.anc_b, target_len },
                    ),
                );
            },
            _ => {},
        }
    }

    /// Run one full relaxation pass: `SOLVER_SUBSTEPS` substeps, each
    /// snapshotting reference positions, applying every constraint in
    /// registration order with the per-substep strength, then
    /// re-enforcing pins. The result is exactly `relax_spec`, and any
    /// pinned axis keeps its coordinate.
    #[verifier::rlimit(100)]
    pub fn eval_system(&mut self)
        requires
            old(self).wf(),
        ensures
            final(self).wf(),
            final(self).constraints@ == old(self).constraints@,
            final(self).anchors@.len() == old(self).anchors@.len(),
            final(self).anchors@ == relax_spec(
                old(self).anchors@,
                old(self).constraints@,
                SOLVER_SUBSTEPS as nat,
                SUBSTEP_STRENGTH as int,
            ),
            forall|i: int|
                0 <= i < old(self).anchors@.len() ==> (#[trigger] final(self).anchors@[i]).pin
                    == old(self).anchors@[i].pin,
            forall|i: int|
                0 <= i < old(self).anchors@.len() && (old(self).anchors@[i].pin == PinMode::PinX
                    || old(self).anchors@[i].pin == PinMode::PinXY)
                    ==> (#[trigger] final(self).anchors@[i]).p.x == old(self).anchors@[i].p.x,
            forall|i: int|
                0 <= i < old(self).anchors@.len() && (old(self).anchors@[i].pin == PinMode::PinY
                    || old(self).anchors@[i].pin == PinMode::PinXY)
                    ==> (#[trigger] final(self).anchors@[i]).p.y == old(self).anchors@[i].p.y,
    {
        let ghost orig = self.anchors@;
        let ghost cs = self.constraints@;
        let n = self.anchors.len();
        let m = self.constraints.len();
        let strength = BASE_STRENGTH / (SOLVER_SUBSTEPS as i64);
        let mut step: u64 = 0;
        while step < SOLVER_SUBSTEPS
            invariant
                0 <= step <= SOLVER_SUBSTEPS,
                strength == SUBSTEP_STRENGTH,
                self.constraints@ == cs,
                m == cs.len(),
                self.anchors@.len() == n,
                n == orig.len(),
                self.anchors@ == relax_spec(orig, cs, step as nat, strength as int),
                self.wf(),
            decreases SOLVER_SUBSTEPS - step,
        {
            let ghost at_start = self.anchors@;

            // Snapshot: cache every live position as the substep's
            // reference position.
            let mut i: usize = 0;
            while i < n
                invariant
                    0 <= i <= n,
                    self.anchors@.len() == n,
                    self.constraints@ == cs,
                    at_start.len() == n,
                    forall|t: int| 0 <= t < i ==> self.anchors@[t] == snap_anchor_spec(at_start[t]),
                    forall|t: int| i <= t < n ==> self.anchors@[t] == at_start[t],
                    self.wf(),
                decreases n - i,
            {
                let mut anc = self.anchors[i];
                anc.p_orig = anc.p;
                self.anchors.set(i, anc);
                i = i + 1;
            }
            proof {
                assert(self.anchors@ =~= snapshot_spec(at_start));
            }
            let ghost snap = self.anchors@;

            // Constraint pass, in registration order; every write is
            // visible to the constraints after it.
            let mut j: usize = 0;
            while j < m
                invariant
                    0 <= j <= m,
                    self.anchors@.len() == n,
                    self.constraints@ == cs,
                    m == cs.len(),
                    snap.len() == n,
                    strength == SUBSTEP_STRENGTH,
                    self.anchors@ == pass_spec(snap, cs, j as int, strength as int),
                    self.wf(),
                decreases m - j,
            {
                let c = self.constraints[j];
                proof {
                    assert(cs[j as int].wf(n as nat));
                }
                match c {
                    Constraint::FixedLength(f) => {
                        let pa = self.anchors[f.anc_a].p;
                        let pb = self.anchors[f.anc_b].p;
                        let r = f.eval(pa, pb, strength);
                        let mut aa = self.anchors[f.anc_a];
                        aa.p = r.0;
                        self.anchors.set(f.anc_a, aa);
                        let mut bb = self.anchors[f.anc_b];
                        bb.p = r.1;
                        self.anchors.set(f.anc_b, bb);
                    },
                    Constraint::Parallel(f) => {
                        let pa = self.anchors[f.anc_a].p;
                        let pb = self.anchors[f.anc_b].p;
                        let pc = self.anchors[f.anc_c].p;
                        let pd = self.anchors[f.anc_d].p;
                        let r = f.eval(pa, pb, pc, pd, strength);
                        let mut aa = self.anchors[f.anc_a];
                        aa.p = r.0;
                        self.anchors.set(f.anc_a, aa);
                        let mut bb = self.anchors[f.anc_b];
                        bb.p = r.1;
                        self.anchors.set(f.anc_b, bb);
                        let mut cc = self.anchors[f.anc_c];
                        cc.p = r.2;
                        self.anchors.set(f.anc_c, cc);
                        let mut dd = self.anchors[f.anc_d];
                        dd.p = r.3;
                        self.anchors.set(f.anc_d, dd);
                    },
                    Constraint::Angle(f) => {
                        let pa = self.anchors[f.anc_a].p;
                        let pb = self.anchors[f.anc_b].p;
                        let pc = self.anchors[f.anc_c].p;
                        let r = f.eval(pa, pb, pc, strength);
                        let mut aa = self.anchors[f.anc_a];
                        aa.p = r.0;
                        self.anchors.set(f.anc_a, aa);
                        let mut bb = self.anchors[f.anc_b];
                        bb.p = r.1;
                        self.anchors.set(f.anc_b, bb);
                        let mut cc = self.anchors[f.anc_c];
                        cc.p = r.2;
                        self.anchors.set(f.anc_c, cc);
                    },
                }
                j = j + 1;
            }
            let ghost passed = self.anchors@;

            // Pin enforcement: locked axes snap back to the reference
            // position taken at the start of this substep.
            let mut k: usize = 0;
            while k < n
                invariant
                    0 <= k <= n,
                    self.anchors@.len() == n,
                    self.constraints@ == cs,
                    passed.len() == n,
                    forall|t: int| 0 <= t < k ==> self.anchors@[t] == pin_anchor_spec(passed[t]),
                    forall|t: int| k <= t < n ==> self.anchors@[t] == passed[t],
                    self.wf(),
                decreases n - k,
            {
                let mut anc = self.anchors[k];
                anc.p = match anc.pin {
                    PinMode::Unpinned => anc.p,
                    PinMode::PinX => Vec2 { x: anc.p_orig.x, y: anc.p.y },
                    PinMode::PinY => Vec2 { x: anc.p.x, y: anc.p_orig.y },
                    PinMode::PinXY => anc.p_orig,
                };
                self.anchors.set(k, anc);
                k = k + 1;
            }
            proof {
                assert(self.anchors@ =~= enforce_pins_spec(passed));
                assert(self.anchors@ == substep_spec(at_start, cs, strength as int));
            }
            step = step + 1;
        }
        proof {
            lemma_relax_pins(orig, cs, SOLVER_SUBSTEPS as nat, SUBSTEP_STRENGTH as int);
        }
    }
}

} // verus!
