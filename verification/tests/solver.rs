use floorplan::{ConstraintSystem, PinMode, Vec2, SCALE};

fn dist_ticks(a: Vec2, b: Vec2) -> i64 {
    let dx = (b.x - a.x) as f64;
    let dy = (b.y - a.y) as f64;
    (dx * dx + dy * dy).sqrt() as i64
}

/// Two anchors at distance 10 with a fixed-length target of 20: one
/// solve moves the distance strictly closer to the target, and
/// repeated solves converge to within 1e-3 world units.
#[test]
fn length_convergence() {
    let mut csys = ConstraintSystem::new();
    let a = csys.add_anchor(Vec2 { x: 0, y: 0 });
    let b = csys.add_anchor(Vec2 { x: 10 * SCALE, y: 0 });
    csys.add_constraint_fixed_len(a, b, Some(20 * SCALE));

    let target = 20 * SCALE;
    let d0 = dist_ticks(csys.anchors[a].p, csys.anchors[b].p);
    csys.eval_system();
    let d1 = dist_ticks(csys.anchors[a].p, csys.anchors[b].p);
    assert!((d1 - target).abs() < (d0 - target).abs());

    for _ in 0..20 {
        csys.eval_system();
    }
    let d = dist_ticks(csys.anchors[a].p, csys.anchors[b].p);
    // 1e-3 world units is 1000 ticks.
    assert!((d - target).abs() <= 1000, "distance {} ticks from target", (d - target).abs());
}

/// The end-to-end scenario: anchors at (0,0) and (10,0), target 20.
/// One solve increases the distance from 10 toward 20 without
/// overshooting; many solves stabilise within 0.01 of 20.
#[test]
fn end_to_end_stretch() {
    let mut csys = ConstraintSystem::new();
    let a = csys.add_anchor(Vec2 { x: 0, y: 0 });
    let b = csys.add_anchor(Vec2 { x: 10 * SCALE, y: 0 });
    csys.add_constraint_fixed_len(a, b, Some(20 * SCALE));

    csys.eval_system();
    let d1 = dist_ticks(csys.anchors[a].p, csys.anchors[b].p);
    assert!(d1 > 10 * SCALE);
    assert!(d1 <= 20 * SCALE);

    for _ in 0..50 {
        csys.eval_system();
    }
    let d = dist_ticks(csys.anchors[a].p, csys.anchors[b].p);
    // 0.01 world units is 10_000 ticks.
    assert!((d - 20 * SCALE).abs() <= 10_000);
}

/// A fully pinned anchor does not move at all, however many solves run
/// and however hard a constraint pulls on it.
#[test]
fn pin_xy_respected() {
    let mut csys = ConstraintSystem::new();
    let a = csys.add_anchor(Vec2 { x: 0, y: 0 });
    let b = csys.add_anchor(Vec2 { x: 10 * SCALE, y: 5 * SCALE });
    csys.add_constraint_fixed_len(a, b, Some(50 * SCALE));
    csys.set_pin(a, PinMode::PinXY);

    let before = csys.anchors[a].p;
    for _ in 0..10 {
        csys.eval_system();
    }
    assert_eq!(csys.anchors[a].p, before);
    // The unpinned partner did move.
    assert_ne!(csys.anchors[b].p, Vec2 { x: 10 * SCALE, y: 5 * SCALE });
}

/// An anchor pinned on X keeps its X coordinate but may move in Y.
#[test]
fn pin_x_respected() {
    let mut csys = ConstraintSystem::new();
    let a = csys.add_anchor(Vec2 { x: 0, y: 0 });
    let b = csys.add_anchor(Vec2 { x: 6 * SCALE, y: 8 * SCALE });
    csys.add_constraint_fixed_len(a, b, Some(30 * SCALE));
    csys.set_pin(a, PinMode::PinX);

    let before = csys.anchors[a].p;
    for _ in 0..5 {
        csys.eval_system();
    }
    assert_eq!(csys.anchors[a].p.x, before.x);
    assert_ne!(csys.anchors[a].p.y, before.y);
}

/// The fixed-length correction is split exactly symmetrically, so the
/// coordinate sums (the midpoint) of the two endpoints are invariant
/// across whole solves, as exact integers.
#[test]
fn midpoint_invariant() {
    let mut csys = ConstraintSystem::new();
    let a = csys.add_anchor(Vec2 { x: 3 * SCALE, y: -2 * SCALE });
    let b = csys.add_anchor(Vec2 { x: 11 * SCALE, y: 7 * SCALE });
    csys.add_constraint_fixed_len(a, b, Some(25 * SCALE));

    let sum_x = csys.anchors[a].p.x + csys.anchors[b].p.x;
    let sum_y = csys.anchors[a].p.y + csys.anchors[b].p.y;
    for _ in 0..7 {
        csys.eval_system();
    }
    assert_eq!(csys.anchors[a].p.x + csys.anchors[b].p.x, sum_x);
    assert_eq!(csys.anchors[a].p.y + csys.anchors[b].p.y, sum_y);
}

/// One projection of the fixed-length rule on exactly representable
/// input: distance 10 toward target 20 with substep strength 0.05
/// moves each endpoint by exactly 0.25 world units.
#[test]
fn fixed_length_projection_exact() {
    let c = floorplan::FixedLengthConstraint { anc_a: 0, anc_b: 1, target_len: 20 * SCALE };
    let a = Vec2 { x: 0, y: 0 };
    let b = Vec2 { x: 10 * SCALE, y: 0 };
    let (na, nb) = c.eval(a, b, 50_000);
    assert_eq!(na, Vec2 { x: -250_000, y: 0 });
    assert_eq!(nb, Vec2 { x: 10_250_000, y: 0 });
}

/// A fixed-length constraint between coincident anchors is skipped:
/// nothing moves and every coordinate stays a plain finite integer.
#[test]
fn degenerate_coincident_anchors() {
    let mut csys = ConstraintSystem::new();
    let p = Vec2 { x: 5 * SCALE, y: 5 * SCALE };
    let a = csys.add_anchor(p);
    let b = csys.add_anchor(p);
    csys.add_constraint_fixed_len(a, b, Some(10 * SCALE));

    csys.eval_system();
    assert_eq!(csys.anchors[a].p, p);
    assert_eq!(csys.anchors[b].p, p);
}

/// Dragging moves an anchor according to its pin mode.
#[test]
fn drag_respects_pins() {
    let mut csys = ConstraintSystem::new();
    let a = csys.add_anchor(Vec2 { x: 1 * SCALE, y: 2 * SCALE });
    let cursor = Vec2 { x: 7 * SCALE, y: 9 * SCALE };

    csys.drag_anchor(a, cursor);
    assert_eq!(csys.anchors[a].p, cursor);

    csys.set_pin(a, PinMode::PinX);
    csys.drag_anchor(a, Vec2 { x: 0, y: 4 * SCALE });
    assert_eq!(csys.anchors[a].p, Vec2 { x: 7 * SCALE, y: 4 * SCALE });

    csys.set_pin(a, PinMode::PinY);
    csys.drag_anchor(a, Vec2 { x: 2 * SCALE, y: 0 });
    assert_eq!(csys.anchors[a].p, Vec2 { x: 2 * SCALE, y: 4 * SCALE });

    csys.set_pin(a, PinMode::PinXY);
    csys.drag_anchor(a, Vec2 { x: 0, y: 0 });
    assert_eq!(csys.anchors[a].p, Vec2 { x: 2 * SCALE, y: 4 * SCALE });
}

/// `find_constraint` matches the anchor pair in either order and
/// returns the first registered match.
#[test]
fn find_constraint_unordered() {
    let mut csys = ConstraintSystem::new();
    let a = csys.add_anchor(Vec2 { x: 0, y: 0 });
    let b = csys.add_anchor(Vec2 { x: SCALE, y: 0 });
    let c = csys.add_anchor(Vec2 { x: 0, y: SCALE });
    csys.add_constraint_fixed_len(a, b, Some(3 * SCALE));
    csys.add_constraint_fixed_len(a, b, Some(4 * SCALE));
    csys.add_constraint_fixed_len(b, c, Some(5 * SCALE));

    match csys.find_constraint(b, a) {
        Some(floorplan::Constraint::FixedLength(f)) => {
            assert_eq!(f.target_len, 3 * SCALE);
        },
        _ => panic!("expected the first fixed-length constraint"),
    }
    assert!(csys.find_constraint(a, c).is_none());
}

/// A fixed-length constraint registered without an explicit target
/// adopts the current distance.
#[test]
fn implicit_target_is_current_distance() {
    let mut csys = ConstraintSystem::new();
    let a = csys.add_anchor(Vec2 { x: 0, y: 0 });
    let b = csys.add_anchor(Vec2 { x: 3 * SCALE, y: 4 * SCALE });
    csys.add_constraint_fixed_len(a, b, None);
    match csys.find_constraint(a, b) {
        Some(floorplan::Constraint::FixedLength(f)) => {
            assert_eq!(f.target_len, 5 * SCALE);
        },
        _ => panic!("constraint not found"),
    }
}

/// The length slider's operation: overwriting a fixed-length target
/// redirects the relaxation toward the new length.
#[test]
fn set_target_redirects_solver() {
    let mut csys = ConstraintSystem::new();
    let a = csys.add_anchor(Vec2 { x: 0, y: 0 });
    let b = csys.add_anchor(Vec2 { x: 10 * SCALE, y: 0 });
    csys.add_constraint_fixed_len(a, b, None);

    csys.set_fixed_len_target(0, 14 * SCALE);
    match csys.find_constraint(a, b) {
        Some(floorplan::Constraint::FixedLength(f)) => assert_eq!(f.target_len, 14 * SCALE),
        _ => panic!("constraint not found"),
    }
    for _ in 0..30 {
        csys.eval_system();
    }
    let d = dist_ticks(csys.anchors[a].p, csys.anchors[b].p);
    assert!((d - 14 * SCALE).abs() <= 1000, "distance off by {}", (d - 14 * SCALE).abs());
}
