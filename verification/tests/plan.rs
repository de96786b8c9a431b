use floorplan::{
    Constraint, Floorplan, FloorplanUndoStack, PinMode, Vec2, Wall, WallStyle, SCALE,
};

#[test]
fn starter_floorplan_shape() {
    let fp = Floorplan::make_starter_floorplan();
    assert_eq!(fp.csys.anchors.len(), 4);
    assert_eq!(fp.walls.len(), 4);
    assert_eq!(fp.csys.anchors[0].p, Vec2 { x: -100 * SCALE, y: -100 * SCALE });
    assert_eq!(fp.csys.anchors[2].p, Vec2 { x: 100 * SCALE, y: 140 * SCALE });
    assert!(fp.csys.anchors.iter().all(|a| a.pin == PinMode::Unpinned));
    // The left wall carries a fixed-length constraint at its drawn
    // length of 180 units.
    match fp.csys.constraints[0] {
        Constraint::FixedLength(f) => {
            assert_eq!(f.anc_a, 0);
            assert_eq!(f.anc_b, 3);
            assert_eq!(f.target_len, 180 * SCALE);
        },
        _ => panic!("expected a fixed-length constraint"),
    }
}

#[test]
fn find_wall_unordered_first() {
    let fp = Floorplan::make_starter_floorplan();
    let w = fp.find_wall(1, 0).expect("wall 0-1 exists");
    assert_eq!(w.anchor_a, 0);
    assert_eq!(w.anchor_b, 1);
    assert!(fp.find_wall(0, 2).is_none());
}

#[test]
fn distance_to_wall_perpendicular() {
    let mut fp = Floorplan::default();
    let a = fp.csys.add_anchor(Vec2 { x: 0, y: 0 });
    let b = fp.csys.add_anchor(Vec2 { x: 10 * SCALE, y: 0 });
    fp.walls.push(Wall { anchor_a: a, anchor_b: b, _style: WallStyle::Interior });

    // Straight above the middle: perpendicular distance.
    assert_eq!(fp.distance_to_wall(0, Vec2 { x: 5 * SCALE, y: 3 * SCALE }), 3 * SCALE);
    // Beyond an endpoint: the projection clamps to the endpoint.
    assert_eq!(fp.distance_to_wall(0, Vec2 { x: 13 * SCALE, y: 4 * SCALE }), 5 * SCALE);
    // On the segment.
    assert_eq!(fp.distance_to_wall(0, Vec2 { x: 2 * SCALE, y: 0 }), 0);
}

#[test]
fn distance_to_degenerate_wall() {
    let mut fp = Floorplan::default();
    let a = fp.csys.add_anchor(Vec2 { x: SCALE, y: SCALE });
    let b = fp.csys.add_anchor(Vec2 { x: SCALE, y: SCALE });
    fp.walls.push(Wall { anchor_a: a, anchor_b: b, _style: WallStyle::Interior });
    // Coincident endpoints degrade to point distance.
    assert_eq!(fp.distance_to_wall(0, Vec2 { x: 4 * SCALE, y: 5 * SCALE }), 5 * SCALE);
}

#[test]
fn find_anchor_nearest_within_threshold() {
    let mut fp = Floorplan::default();
    fp.csys.add_anchor(Vec2 { x: 0, y: 0 });
    fp.csys.add_anchor(Vec2 { x: 10 * SCALE, y: 0 });
    fp.csys.add_anchor(Vec2 { x: 11 * SCALE, y: 0 });

    // Closest to (10.4, 0) is anchor 1.
    let hit = fp.find_anchor(Vec2 { x: 10_400_000, y: 0 }, 5 * SCALE);
    assert_eq!(hit, Some(1));
    // Nothing within half a unit of (5, 5).
    let miss = fp.find_anchor(Vec2 { x: 5 * SCALE, y: 5 * SCALE }, SCALE / 2);
    assert_eq!(miss, None);
    // Equidistant between anchors 1 and 2: the earlier index wins.
    let tie = fp.find_anchor(Vec2 { x: 10_500_000, y: 0 }, 5 * SCALE);
    assert_eq!(tie, Some(1));
}

#[test]
fn find_closest_wall_picks_nearest() {
    let mut fp = Floorplan::default();
    let a = fp.csys.add_anchor(Vec2 { x: 0, y: 0 });
    let b = fp.csys.add_anchor(Vec2 { x: 10 * SCALE, y: 0 });
    let c = fp.csys.add_anchor(Vec2 { x: 0, y: 8 * SCALE });
    let d = fp.csys.add_anchor(Vec2 { x: 10 * SCALE, y: 8 * SCALE });
    fp.walls.push(Wall { anchor_a: a, anchor_b: b, _style: WallStyle::Interior });
    fp.walls.push(Wall { anchor_a: c, anchor_b: d, _style: WallStyle::Interior });

    let hit = fp.find_closest_wall(Vec2 { x: 5 * SCALE, y: 6 * SCALE }, 5 * SCALE);
    assert_eq!(hit, Some(1));
    let miss = fp.find_closest_wall(Vec2 { x: 5 * SCALE, y: 50 * SCALE }, 5 * SCALE);
    assert_eq!(miss, None);
}

#[test]
fn create_wall_reuses_and_creates_anchors() {
    let mut fp = Floorplan::default();
    let a = fp.csys.add_anchor(Vec2 { x: 0, y: 0 });

    // One end snaps to the existing anchor, the other is new.
    fp.create_wall(Vec2 { x: 0, y: 0 }, Vec2 { x: 10 * SCALE, y: 0 }, Some(a), None);
    assert_eq!(fp.csys.anchors.len(), 2);
    assert_eq!(fp.walls.len(), 1);
    assert_eq!(fp.csys.anchors[1].p, Vec2 { x: 10 * SCALE, y: 0 });
    assert_eq!(fp.walls[0].anchor_a, 0);
    assert_eq!(fp.walls[0].anchor_b, 1);

    // The same pair again: no duplicate wall.
    fp.create_wall(Vec2 { x: 0, y: 0 }, Vec2 { x: 10 * SCALE, y: 0 }, Some(0), Some(1));
    assert_eq!(fp.walls.len(), 1);

    // Two fresh ends: two new anchors and a second wall.
    fp.create_wall(Vec2 { x: 0, y: 5 * SCALE }, Vec2 { x: 5 * SCALE, y: 5 * SCALE }, None, None);
    assert_eq!(fp.csys.anchors.len(), 4);
    assert_eq!(fp.walls.len(), 2);
}

#[test]
fn undo_stack_snapshots_and_flags() {
    let mut undo = FloorplanUndoStack::default();
    assert!(!undo.is_top_adjust());

    let mut fp = Floorplan::make_starter_floorplan();
    undo.push_before_op("Create Wall", &fp);
    assert!(!undo.is_top_adjust());
    assert_eq!(undo.stack[0].op_name, "Create Wall");

    undo.push_before_adjust(&fp);
    assert!(undo.is_top_adjust());
    assert_eq!(undo.stack.len(), 2);

    // Mutate the plan, then restore the snapshot.
    fp.csys.drag_anchor(0, Vec2 { x: 0, y: 0 });
    assert_ne!(fp.csys.anchors[0].p, Vec2 { x: -100 * SCALE, y: -100 * SCALE });
    let entry = undo.stack.pop().expect("snapshot");
    fp.copy_from(entry.floorplan);
    assert_eq!(fp.csys.anchors[0].p, Vec2 { x: -100 * SCALE, y: -100 * SCALE });
    assert_eq!(fp.walls.len(), 4);
    assert!(!undo.is_top_adjust());
}

#[test]
fn clone_is_deep() {
    let fp = Floorplan::make_starter_floorplan();
    let mut copy = fp.clone();
    copy.csys.drag_anchor(0, Vec2 { x: 0, y: 0 });
    assert_ne!(copy.csys.anchors[0].p, fp.csys.anchors[0].p);
    assert_eq!(fp.csys.anchors[0].p, Vec2 { x: -100 * SCALE, y: -100 * SCALE });
}

#[test]
fn starter_floorplan_relaxes_quietly() {
    // The starter plan's one constraint is already satisfied, so a few
    // solves keep every anchor in place up to solver noise.
    let mut fp = Floorplan::make_starter_floorplan();
    let before: Vec<Vec2> = fp.csys.anchors.iter().map(|a| a.p).collect();
    for _ in 0..3 {
        fp.csys.eval_system();
    }
    for (i, b) in before.iter().enumerate() {
        let p = fp.csys.anchors[i].p;
        assert!((p.x - b.x).abs() <= 10 && (p.y - b.y).abs() <= 10);
    }
}

#[test]
fn toggle_selection_adds_and_removes() {
    let mut selected: Vec<usize> = Vec::new();
    floorplan::toggle_selection(&mut selected, 3);
    assert_eq!(selected, vec![3]);
    floorplan::toggle_selection(&mut selected, 7);
    assert_eq!(selected, vec![3, 7]);
    // Clicking a selected item removes it, keeping the others.
    floorplan::toggle_selection(&mut selected, 3);
    assert_eq!(selected, vec![7]);
    // Duplicates are removed everywhere.
    let mut messy: Vec<usize> = vec![1, 2, 1, 3, 1];
    floorplan::toggle_selection(&mut messy, 1);
    assert_eq!(messy, vec![2, 3]);
}
