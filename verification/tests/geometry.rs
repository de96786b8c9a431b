use floorplan::{Vec2, HALF_PI_FIXED, PI_FIXED, SCALE, TWO_PI_FIXED, align_cursor};
use floorplan::trig::{acos_fixed, atan2_fixed, cos_fixed, sin_fixed, wrap_angle};

#[test]
fn sine_special_values() {
    assert_eq!(sin_fixed(0), 0);
    assert_eq!(sin_fixed(HALF_PI_FIXED), SCALE);
    // sin(pi) is zero up to the last polynomial tick.
    assert!(sin_fixed(PI_FIXED).abs() <= 10);
    assert_eq!(sin_fixed(-HALF_PI_FIXED), -SCALE);
    assert!(sin_fixed(TWO_PI_FIXED).abs() <= 10);
}

#[test]
fn cosine_special_values() {
    assert_eq!(cos_fixed(0), SCALE);
    assert!(cos_fixed(HALF_PI_FIXED).abs() <= 10);
    assert!((cos_fixed(PI_FIXED) + SCALE).abs() <= 10);
}

#[test]
fn sine_against_reference() {
    let mut a: i64 = -6_000_000;
    while a <= 6_000_000 {
        let got = sin_fixed(a) as f64 / SCALE as f64;
        let want = (a as f64 / SCALE as f64).sin();
        assert!((got - want).abs() < 2e-5, "sin({}) = {} want {}", a, got, want);
        a += 13_333;
    }
}

#[test]
fn atan2_quadrants() {
    assert_eq!(atan2_fixed(0, 5 * SCALE), 0);
    assert_eq!(atan2_fixed(5 * SCALE, 0), HALF_PI_FIXED);
    assert_eq!(atan2_fixed(0, -5 * SCALE), PI_FIXED);
    assert_eq!(atan2_fixed(-5 * SCALE, 0), -HALF_PI_FIXED);
    assert_eq!(atan2_fixed(0, 0), 0);
    // 45 degrees.
    let a = atan2_fixed(SCALE, SCALE);
    assert!((a - 785_398).abs() <= 200, "atan2(1,1) = {}", a);
}

#[test]
fn atan2_against_reference() {
    let samples: [(i64, i64); 8] = [
        (3, 4),
        (-3, 4),
        (3, -4),
        (-3, -4),
        (1, 10),
        (10, 1),
        (-7, 2),
        (5, -9),
    ];
    for (y, x) in samples {
        let got = atan2_fixed(y * SCALE, x * SCALE) as f64 / SCALE as f64;
        let want = (y as f64).atan2(x as f64);
        assert!((got - want).abs() < 2e-3, "atan2({y},{x}) = {got} want {want}");
    }
}

#[test]
fn acos_domain_edges() {
    assert_eq!(acos_fixed(SCALE), 0);
    assert_eq!(acos_fixed(-SCALE), PI_FIXED);
    let mid = acos_fixed(0);
    assert!((mid - HALF_PI_FIXED).abs() <= 200, "acos(0) = {}", mid);
    let third = acos_fixed(500_000) as f64 / SCALE as f64;
    assert!((third - std::f64::consts::FRAC_PI_3).abs() < 2e-3);
}

#[test]
fn wrap_angle_range() {
    assert_eq!(wrap_angle(0), 0);
    assert_eq!(wrap_angle(TWO_PI_FIXED), 0);
    assert_eq!(wrap_angle(-1), TWO_PI_FIXED - 1);
    assert_eq!(wrap_angle(TWO_PI_FIXED + 5), 5);
    let w = wrap_angle(i64::MIN);
    assert!(0 <= w && w < TWO_PI_FIXED);
    let w2 = wrap_angle(i64::MAX);
    assert!(0 <= w2 && w2 < TWO_PI_FIXED);
}

#[test]
fn distance_exact_on_pythagorean_triple() {
    let a = Vec2 { x: 0, y: 0 };
    let b = Vec2 { x: 3 * SCALE, y: 4 * SCALE };
    assert_eq!(a.dist(b), 5 * SCALE);
    assert_eq!(a.dist(a), 0);
    // Floor square root: distance 1.5 across on both axes.
    let c = Vec2 { x: SCALE, y: SCALE };
    assert_eq!(a.dist(c), 1_414_213);
}

#[test]
fn midpoint_truncates_toward_zero() {
    let a = Vec2 { x: 1, y: -1 };
    let b = Vec2 { x: 2, y: -2 };
    let m = a.midpoint(b);
    assert_eq!(m, Vec2 { x: 1, y: -1 });
    let m2 = (Vec2 { x: 2 * SCALE, y: 0 }).midpoint(Vec2 { x: 4 * SCALE, y: 6 * SCALE });
    assert_eq!(m2, Vec2 { x: 3 * SCALE, y: 3 * SCALE });
}

#[test]
fn unit_direction_components() {
    let a = Vec2 { x: 0, y: 0 };
    let b = Vec2 { x: 3 * SCALE, y: 4 * SCALE };
    let n = a.unit_toward(b);
    assert_eq!(n, Vec2 { x: 600_000, y: 800_000 });
    let back = b.unit_toward(a);
    assert_eq!(back, Vec2 { x: -600_000, y: -800_000 });
}

#[test]
fn align_cursor_picks_dominant_axis() {
    let origin = Vec2 { x: 0, y: 0 };
    // Moved further in X: keep X, snap Y to the origin.
    let r = align_cursor(Vec2 { x: 5 * SCALE, y: 2 * SCALE }, origin);
    assert_eq!(r, Vec2 { x: 5 * SCALE, y: 0 });
    // Moved further in Y: keep Y, snap X.
    let r2 = align_cursor(Vec2 { x: -2 * SCALE, y: -5 * SCALE }, origin);
    assert_eq!(r2, Vec2 { x: 0, y: -5 * SCALE });
    // A tie snaps to the vertical axis.
    let r3 = align_cursor(Vec2 { x: 3 * SCALE, y: 3 * SCALE }, origin);
    assert_eq!(r3, Vec2 { x: 0, y: 3 * SCALE });
}
