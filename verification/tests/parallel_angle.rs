use floorplan::{
    AngleConstraint, ConstraintSystem, Vec2, ANGLE_CAP, HALF_PI_FIXED, SCALE,
};

fn seg_angle(a: Vec2, b: Vec2) -> f64 {
    ((b.y - a.y) as f64).atan2((b.x - a.x) as f64)
}

fn dist_f(a: Vec2, b: Vec2) -> f64 {
    let dx = (b.x - a.x) as f64;
    let dy = (b.y - a.y) as f64;
    (dx * dx + dy * dy).sqrt()
}

/// Two segments 45 degrees apart converge toward a shared orientation:
/// the angle difference shrinks with every solve while it is above the
/// fixed-point noise floor, and each segment keeps its own length to
/// within a hundredth of a unit.
#[test]
fn parallel_segments_converge() {
    let mut csys = ConstraintSystem::new();
    let a1 = csys.add_anchor(Vec2 { x: 0, y: 0 });
    let b1 = csys.add_anchor(Vec2 { x: 10 * SCALE, y: 0 });
    let a2 = csys.add_anchor(Vec2 { x: 0, y: 5 * SCALE });
    let b2 = csys.add_anchor(Vec2 { x: 7 * SCALE, y: 12 * SCALE });
    csys.add_constraint_parallel(a1, b1, a2, b2);

    let len1 = dist_f(csys.anchors[a1].p, csys.anchors[b1].p);
    let len2 = dist_f(csys.anchors[a2].p, csys.anchors[b2].p);
    let mut diff = (seg_angle(csys.anchors[a2].p, csys.anchors[b2].p)
        - seg_angle(csys.anchors[a1].p, csys.anchors[b1].p))
        .abs();
    assert!(diff > 0.7);

    // The difference shrinks strictly with every solve until it reaches
    // the fixed-point noise floor.
    for _ in 0..20 {
        csys.eval_system();
        let next = (seg_angle(csys.anchors[a2].p, csys.anchors[b2].p)
            - seg_angle(csys.anchors[a1].p, csys.anchors[b1].p))
            .abs();
        if diff > 1e-3 {
            assert!(next < diff, "angle difference grew from {} to {}", diff, next);
        } else {
            assert!(next <= 1e-3, "angle difference rebounded to {}", next);
        }
        diff = next;
    }
    let final_diff = (seg_angle(csys.anchors[a2].p, csys.anchors[b2].p)
        - seg_angle(csys.anchors[a1].p, csys.anchors[b1].p))
        .abs();
    assert!(final_diff < 1e-3, "angle difference still {}", final_diff);

    // Rotation only: lengths preserved to within 0.01 world units.
    let len1_after = dist_f(csys.anchors[a1].p, csys.anchors[b1].p);
    let len2_after = dist_f(csys.anchors[a2].p, csys.anchors[b2].p);
    assert!((len1_after - len1).abs() <= 0.01 * SCALE as f64);
    assert!((len2_after - len2).abs() <= 0.01 * SCALE as f64);
}

/// An angle constraint pulls the angle at the vertex toward its
/// target.
#[test]
fn angle_converges_to_target() {
    let mut csys = ConstraintSystem::new();
    // 45 degrees initially, target 90 degrees.
    let a = csys.add_anchor(Vec2 { x: 10 * SCALE, y: 0 });
    let b = csys.add_anchor(Vec2 { x: 0, y: 0 });
    let c = csys.add_anchor(Vec2 { x: 10 * SCALE, y: 10 * SCALE });
    csys.add_constraint_angle(a, b, c, Some(HALF_PI_FIXED));

    for _ in 0..60 {
        csys.eval_system();
    }
    let pa = csys.anchors[a].p;
    let pb = csys.anchors[b].p;
    let pc = csys.anchors[c].p;
    let dot = ((pa.x - pb.x) as f64 * (pc.x - pb.x) as f64
        + (pa.y - pb.y) as f64 * (pc.y - pb.y) as f64) / (dist_f(pb, pa) * dist_f(pb, pc));
    let angle = dot.clamp(-1.0, 1.0).acos();
    assert!((angle - std::f64::consts::FRAC_PI_2).abs() < 1e-3, "angle is {}", angle);
}

/// The displacement cap: one angle projection with a huge error never
/// moves an outer point further than `ANGLE_CAP` ticks.
#[test]
fn angle_projection_capped() {
    let k = AngleConstraint {
        anc_a: 0,
        anc_b: 1,
        anc_c: 2,
        // Nearly pi away from the current angle of ~zero.
        target_angle: 3_000_000,
    };
    let a = Vec2 { x: 10 * SCALE, y: SCALE };
    let b = Vec2 { x: 0, y: 0 };
    let c = Vec2 { x: 10 * SCALE, y: -SCALE };
    let (na, nb, nc) = k.eval(a, b, c, 1_000_000);
    assert_eq!(nb, b);
    let da = dist_f(a, na);
    let dc = dist_f(c, nc);
    assert!(da <= ANGLE_CAP as f64, "outer point moved {} ticks", da);
    assert!(dc <= ANGLE_CAP as f64, "outer point moved {} ticks", dc);
    // The cap actually bites here: the uncapped rotation would move the
    // points much further than it did.
    assert!(da > 0.0 && dc > 0.0);
}

/// The capped rotation helper itself never moves a point further than
/// the cap, even for a quarter-turn request.
#[test]
fn rotation_cap_bites() {
    let p = Vec2 { x: 10 * SCALE, y: 0 };
    let center = Vec2 { x: 0, y: 0 };
    let r = p.rotate_around_point_lim(center, HALF_PI_FIXED, 100_000);
    let moved = dist_f(p, r);
    assert!(moved <= 100_000.0);
    assert!(moved >= 99_000.0, "the cap should allow nearly the full step, moved {}", moved);
}

/// An uncapped small rotation behaves like a rotation: a quarter turn
/// about the origin carries (1, 0) to (0, 1) up to fixed-point noise.
#[test]
fn rotation_quarter_turn() {
    let p = Vec2 { x: SCALE, y: 0 };
    let center = Vec2 { x: 0, y: 0 };
    let r = p.rotate_around_point(center, HALF_PI_FIXED);
    assert!(r.x.abs() <= 20, "x is {}", r.x);
    assert!((r.y - SCALE).abs() <= 20, "y is {}", r.y);
}

/// Collinear rays make the unit-ray dot product land on (or round
/// just past) the arccosine domain edge; the projection clamps it and
/// survives, leaving every coordinate a plain finite integer.
#[test]
fn degenerate_dot_at_domain_edge() {
    let mut csys = ConstraintSystem::new();
    let a = csys.add_anchor(Vec2 { x: 10 * SCALE, y: 0 });
    let b = csys.add_anchor(Vec2 { x: 0, y: 0 });
    let c = csys.add_anchor(Vec2 { x: 17 * SCALE, y: 0 });
    // Collinear: the current angle is 0, its cosine exactly at the
    // domain edge. Ask for a right angle and let it run.
    csys.add_constraint_angle(a, b, c, Some(HALF_PI_FIXED));
    for _ in 0..3 {
        csys.eval_system();
    }
    for i in 0..3 {
        assert!(csys.anchors[i].p.x.abs() <= floorplan::MAX_COORD);
        assert!(csys.anchors[i].p.y.abs() <= floorplan::MAX_COORD);
    }
}

/// An angle constraint registered without an explicit target adopts
/// the current angle: a right angle reads back as roughly pi/2.
#[test]
fn implicit_angle_target() {
    let mut csys = ConstraintSystem::new();
    let a = csys.add_anchor(Vec2 { x: 10 * SCALE, y: 0 });
    let b = csys.add_anchor(Vec2 { x: 0, y: 0 });
    let c = csys.add_anchor(Vec2 { x: 0, y: 10 * SCALE });
    csys.add_constraint_angle(a, b, c, None);
    match csys.constraints[0] {
        floorplan::Constraint::Angle(k) => {
            assert!((k.target_angle - HALF_PI_FIXED).abs() <= 2000, "target {}", k.target_angle);
        },
        _ => panic!("expected an angle constraint"),
    }
}
