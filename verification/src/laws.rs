//! The solver's standing guarantees, stated and proved over the spec
//! model once and for all inputs.
//!
//! Beside these, two guarantees live as `ensures` clauses of the
//! functions they are about: the angle constraint's per-substep
//! displacement cap (`AngleConstraint::eval` and
//! `Vec2::rotate_around_point_lim`), and pin respect across a whole
//! relaxation pass (`ConstraintSystem::eval_system`).

use vstd::prelude::*;
use crate::fixed::{SCALE, div_t, lemma_mul_bound, lemma_isqrt_spec_bounds};
use crate::vec2::{Vec2, MAX_DIST, lemma_div_t_mag, lemma_len_sq_bounds, lemma_component_le_dist,
    lemma_unit_component_bound};
use crate::system::{
    AnchorPoint, PinMode, Constraint, FixedLengthConstraint, AngleConstraint, MAX_TARGET,
    eval_fixed_len_spec, eval_angle_spec, apply_constraint_spec, pass_spec, snapshot_spec,
    enforce_pins_spec, substep_spec, relax_spec, pin_anchor_spec, lemma_pass_meta,
    lemma_relax_pins,
};

verus! {

/// The fixed-length projection is symmetric: in one substep, whatever
/// displacement it applies to one endpoint it applies to the other
/// with opposite sign, so the coordinate sums (and hence the midpoint)
/// of the endpoints are exactly invariant.
pub proof fn lemma_fixed_length_projection_symmetry(
    c: FixedLengthConstraint,
    a: Vec2,
    b: Vec2,
    strength: int,
)
    requires
        a.in_box(),
        b.in_box(),
        0 <= c.target_len <= MAX_TARGET,
        0 <= strength <= SCALE,
    ensures
        eval_fixed_len_spec(c, a, b, strength).0.x + eval_fixed_len_spec(c, a, b, strength).1.x
            == a.x + b.x,
        eval_fixed_len_spec(c, a, b, strength).0.y + eval_fixed_len_spec(c, a, b, strength).1.y
            == a.y + b.y,
        eval_fixed_len_spec(c, a, b, strength).0.x - a.x == -(eval_fixed_len_spec(
            c,
            a,
            b,
            strength,
        ).1.x - b.x),
        eval_fixed_len_spec(c, a, b, strength).0.y - a.y == -(eval_fixed_len_spec(
            c,
            a,
            b,
            strength,
        ).1.y - b.y),
        eval_fixed_len_spec(c, a, b, strength).0.in_box(),
        eval_fixed_len_spec(c, a, b, strength).1.in_box(),
{
    let d = Vec2::dist_spec(a, b);
    if d != 0 {
        lemma_len_sq_bounds(a, b);
        lemma_isqrt_spec_bounds(Vec2::len_sq_spec(a, b) as nat);
        lemma_component_le_dist(a, b);
        lemma_unit_component_bound(b.x - a.x, d);
        lemma_unit_component_bound(b.y - a.y, d);
        let n = Vec2::unit_toward_spec(a, b);
        let diff = d - c.target_len;
        let half = strength / 2;
        lemma_mul_bound(n.x as int, diff, SCALE as int, (MAX_TARGET + MAX_DIST) as int);
        lemma_mul_bound(n.y as int, diff, SCALE as int, (MAX_TARGET + MAX_DIST) as int);
        lemma_div_t_mag(n.x as int * diff, SCALE as int * (MAX_TARGET + MAX_DIST) as int,
            SCALE as int);
        lemma_div_t_mag(n.y as int * diff, SCALE as int * (MAX_TARGET + MAX_DIST) as int,
            SCALE as int);
        lemma_mul_bound(div_t(n.x as int * diff, SCALE as int), half,
            (MAX_TARGET + MAX_DIST) as int, 500_000int);
        lemma_mul_bound(div_t(n.y as int * diff, SCALE as int), half,
            (MAX_TARGET + MAX_DIST) as int, 500_000int);
        lemma_div_t_mag(div_t(n.x as int * diff, SCALE as int) * half,
            (MAX_TARGET + MAX_DIST) as int * 500_000, SCALE as int);
        lemma_div_t_mag(div_t(n.y as int * diff, SCALE as int) * half,
            (MAX_TARGET + MAX_DIST) as int * 500_000, SCALE as int);
    }
}

/// A fixed-length constraint between coincident anchors is skipped:
/// the projection leaves both positions untouched, whatever the target
/// and strength. In particular it can never produce an undefined
/// direction.
pub proof fn lemma_fixed_length_degenerate_skip(c: FixedLengthConstraint, a: Vec2, strength: int)
    ensures
        eval_fixed_len_spec(c, a, a, strength) == (a, a),
{
    assert(Vec2::len_sq_spec(a, a) == 0);
}

/// An angle constraint whose vertex coincides with an outer point is
/// skipped: no ray direction exists, so nothing moves.
pub proof fn lemma_angle_degenerate_skip(k: AngleConstraint, b: Vec2, c: Vec2, strength: int)
    ensures
        eval_angle_spec(k, b, b, c, strength) == (b, b, c),
        eval_angle_spec(k, c, b, b, strength) == (c, b, b),
{
    assert(Vec2::len_sq_spec(b, b) == 0);
}

/// A fully pinned anchor is exactly where it was after any number of
/// substeps, whatever constraints reference it; an anchor pinned on
/// one axis keeps that axis.
pub proof fn lemma_pinned_anchor_fixed(
    s: Seq<AnchorPoint>,
    cs: Seq<Constraint>,
    steps: nat,
    strength: int,
    i: int,
)
    requires
        0 <= i < s.len(),
    ensures
        s[i].pin == PinMode::PinXY ==> relax_spec(s, cs, steps, strength)[i].p == s[i].p,
        s[i].pin == PinMode::PinX ==> relax_spec(s, cs, steps, strength)[i].p.x == s[i].p.x,
        s[i].pin == PinMode::PinY ==> relax_spec(s, cs, steps, strength)[i].p.y == s[i].p.y,
{
    lemma_relax_pins(s, cs, steps, strength);
}

/// One application of a fixed-length constraint inside a pass keeps
/// the coordinate sums of its two endpoints, and touches no other
/// anchor.
proof fn lemma_apply_fixed_length_midpoint(s: Seq<AnchorPoint>, f: FixedLengthConstraint,
    strength: int)
    requires
        f.anc_a < s.len(),
        f.anc_b < s.len(),
        0 <= f.target_len <= MAX_TARGET,
        0 <= strength <= SCALE,
        forall|t: int| 0 <= t < s.len() ==> (#[trigger] s[t]).wf(),
    ensures
        ({
            let s2 = apply_constraint_spec(s, Constraint::FixedLength(f), strength);
            &&& s2.len() == s.len()
            &&& s2[f.anc_a as int].p.x + s2[f.anc_b as int].p.x == s[f.anc_a as int].p.x
                + s[f.anc_b as int].p.x
            &&& s2[f.anc_a as int].p.y + s2[f.anc_b as int].p.y == s[f.anc_a as int].p.y
                + s[f.anc_b as int].p.y
            &&& forall|t: int|
                0 <= t < s.len() && t != f.anc_a && t != f.anc_b ==> s2[t] == s[t]
            &&& forall|t: int| 0 <= t < s.len() ==> (#[trigger] s2[t]).wf()
        }),
{
    let pa = s[f.anc_a as int].p;
    let pb = s[f.anc_b as int].p;
    assert(s[f.anc_a as int].wf());
    assert(s[f.anc_b as int].wf());
    lemma_fixed_length_projection_symmetry(f, pa, pb, strength);
    if f.anc_a == f.anc_b {
        lemma_fixed_length_degenerate_skip(f, pa, strength);
    }
}

/// The midpoint law for a whole relaxation: in a system whose only
/// constraint is one fixed-length constraint and whose two endpoints
/// are unpinned, the coordinate sums of the endpoints, and so their
/// midpoint, are exactly invariant across every substep of
/// `eval_system`, for any number of substeps.
pub proof fn lemma_fixed_length_midpoint_invariant(
    s: Seq<AnchorPoint>,
    f: FixedLengthConstraint,
    steps: nat,
    strength: int,
)
    requires
        f.anc_a < s.len(),
        f.anc_b < s.len(),
        0 <= f.target_len <= MAX_TARGET,
        0 <= strength <= SCALE,
        forall|t: int| 0 <= t < s.len() ==> (#[trigger] s[t]).wf(),
        s[f.anc_a as int].pin == PinMode::Unpinned,
        s[f.anc_b as int].pin == PinMode::Unpinned,
    ensures
        ({
            let cs = seq![Constraint::FixedLength(f)];
            let s2 = relax_spec(s, cs, steps, strength);
            &&& s2.len() == s.len()
            &&& s2[f.anc_a as int].p.x + s2[f.anc_b as int].p.x == s[f.anc_a as int].p.x
                + s[f.anc_b as int].p.x
            &&& s2[f.anc_a as int].p.y + s2[f.anc_b as int].p.y == s[f.anc_a as int].p.y
                + s[f.anc_b as int].p.y
            &&& forall|t: int| 0 <= t < s.len() ==> (#[trigger] s2[t]).wf()
            &&& s2[f.anc_a as int].pin == PinMode::Unpinned
            &&& s2[f.anc_b as int].pin == PinMode::Unpinned
        }),
    decreases steps,
{
    let cs = seq![Constraint::FixedLength(f)];
    if steps > 0 {
        lemma_fixed_length_midpoint_invariant(s, f, (steps - 1) as nat, strength);
        let prev = relax_spec(s, cs, (steps - 1) as nat, strength);
        lemma_substep_fixed_length_midpoint(prev, f, strength);
    }
}

/// One substep of the single-constraint system: snapshot, one
/// projection, pin enforcement on unpinned endpoints.
proof fn lemma_substep_fixed_length_midpoint(s: Seq<AnchorPoint>, f: FixedLengthConstraint,
    strength: int)
    requires
        f.anc_a < s.len(),
        f.anc_b < s.len(),
        0 <= f.target_len <= MAX_TARGET,
        0 <= strength <= SCALE,
        forall|t: int| 0 <= t < s.len() ==> (#[trigger] s[t]).wf(),
        s[f.anc_a as int].pin == PinMode::Unpinned,
        s[f.anc_b as int].pin == PinMode::Unpinned,
    ensures
        ({
            let cs = seq![Constraint::FixedLength(f)];
            let s2 = substep_spec(s, cs, strength);
            &&& s2.len() == s.len()
            &&& s2[f.anc_a as int].p.x + s2[f.anc_b as int].p.x == s[f.anc_a as int].p.x
                + s[f.anc_b as int].p.x
            &&& s2[f.anc_a as int].p.y + s2[f.anc_b as int].p.y == s[f.anc_a as int].p.y
                + s[f.anc_b as int].p.y
            &&& forall|t: int| 0 <= t < s.len() ==> (#[trigger] s2[t]).wf()
            &&& s2[f.anc_a as int].pin == PinMode::Unpinned
            &&& s2[f.anc_b as int].pin == PinMode::Unpinned
        }),
{
    let cs = seq![Constraint::FixedLength(f)];
    let snap = snapshot_spec(s);
    assert(forall|t: int| 0 <= t < s.len() ==> (#[trigger] snap[t]).wf() && snap[t].p == s[t].p
        && snap[t].pin == s[t].pin);
    assert(pass_spec(snap, cs, 1, strength) == apply_constraint_spec(
        pass_spec(snap, cs, 0, strength),
        cs[0],
        strength,
    ));
    assert(pass_spec(snap, cs, 0, strength) == snap);
    lemma_apply_fixed_length_midpoint(snap, f, strength);
    let passed = apply_constraint_spec(snap, Constraint::FixedLength(f), strength);
    lemma_pass_meta(snap, cs, 1, strength);
    let s2 = substep_spec(s, cs, strength);
    assert(cs.len() == 1);
    assert(s2 == enforce_pins_spec(passed));
    assert(s2[f.anc_a as int] == pin_anchor_spec(passed[f.anc_a as int]));
    assert(s2[f.anc_b as int] == pin_anchor_spec(passed[f.anc_b as int]));
    assert(passed[f.anc_a as int].pin == PinMode::Unpinned);
    assert(passed[f.anc_b as int].pin == PinMode::Unpinned);
    assert(forall|t: int| 0 <= t < s.len() ==> (#[trigger] s2[t]).wf());
}

} // verus!
