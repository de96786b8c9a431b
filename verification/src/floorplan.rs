//! The sketch model around the solver: walls between anchors, hit
//! testing for picking, and the undo snapshot stack.

use vstd::prelude::*;
use vstd::string::StringExecFns;
use crate::fixed::{SCALE, MAX_COORD, div_t, clamp_spec, lemma_mul_bound, lemma_mul_nonneg_bound,
    lemma_div_pos_bound, clone_vec_copy, lemma_isqrt_square};
use crate::vec2::{Vec2, MAX_DIST, div_i128, lemma_div_t_mag};
use crate::system::{ConstraintSystem, AnchorPoint, PinMode, Constraint, FixedLengthConstraint};

verus! {

/// Rendering style of a wall.
#[derive(Copy, Clone, PartialEq, Eq, Structural, Debug)]
pub enum WallStyle {
    Interior,
    Exterior,
}

impl Default for WallStyle {
    /// Walls are interior unless asked otherwise.
    fn default() -> (r: Self)
        ensures
            r == WallStyle::Interior,
    {
        WallStyle::Interior
    }
}

/// A wall between two anchors, referenced by index.
#[derive(Copy, Clone, PartialEq, Eq, Structural, Debug)]
pub struct Wall {
    pub anchor_a: usize,
    pub anchor_b: usize,
    pub _style: WallStyle,
}

impl Default for Wall {
    /// A degenerate wall on anchor 0, in the default style.
    fn default() -> (r: Self)
        ensures
            r == (Wall { anchor_a: 0, anchor_b: 0, _style: WallStyle::Interior }),
    {
        Wall { anchor_a: 0, anchor_b: 0, _style: WallStyle::Interior }
    }
}

/// The whole editable sketch: the constraint system that owns the
/// anchors, and the walls drawn between them.
pub struct Floorplan {
    pub csys: ConstraintSystem,
    pub walls: Vec<Wall>,
}

impl Clone for Floorplan {
    /// Deep copy, as undo snapshots require.
    fn clone(&self) -> (r: Self)
        ensures
            r.csys.anchors@ == self.csys.anchors@,
            r.csys.constraints@ == self.csys.constraints@,
            r.walls@ == self.walls@,
    {
        Floorplan { csys: self.csys.clone(), walls: clone_vec_copy(&self.walls) }
    }
}

impl Default for Floorplan {
    /// An empty sketch.
    fn default() -> (r: Self)
        ensures
            r.csys.anchors@.len() == 0,
            r.csys.constraints@.len() == 0,
            r.walls@.len() == 0,
            r.wf(),
    {
        Floorplan { csys: ConstraintSystem::new(), walls: Vec::new() }
    }
}

/// Does `w` join exactly the unordered anchor pair `{a, b}`?
pub open spec fn wall_matches(w: Wall, a: int, b: int) -> bool {
    (w.anchor_a == a && w.anchor_b == b) || (w.anchor_a == b && w.anchor_b == a)
}

/// The first wall joining the unordered pair `{a, b}`.
pub open spec fn find_wall_spec(s: Seq<Wall>, a: int, b: int) -> Option<Wall>
    decreases s.len(),
{
    if s.len() == 0 {
        None
    } else if wall_matches(s[0], a, b) {
        Some(s[0])
    } else {
        find_wall_spec(s.drop_first(), a, b)
    }
}

/// Distance from `p` to the segment `pa -> pb`: the distance to the
/// projection of `p` onto the segment, with the projection parameter
/// clamped to the segment. Coincident endpoints degrade to the
/// distance to `pa`.
pub open spec fn dist_point_segment_spec(p: Vec2, pa: Vec2, pb: Vec2) -> int {
    let l2 = Vec2::len_sq_spec(pa, pb);
    if l2 == 0 {
        Vec2::dist_spec(p, pa)
    } else {
        let dot = (p.x - pa.x) * (pb.x - pa.x) + (p.y - pa.y) * (pb.y - pa.y);
        let t = clamp_spec(div_t(dot * SCALE, l2), 0, SCALE as int);
        let proj = Vec2 {
            x: (pa.x + div_t(t * (pb.x - pa.x), SCALE as int)) as i64,
            y: (pa.y + div_t(t * (pb.y - pa.y), SCALE as int)) as i64,
        };
        Vec2::dist_spec(proj, p)
    }
}

/// Distance from `p` to anchor `j` of the sketch.
pub open spec fn anchor_dist_spec(fp: Floorplan, j: int, p: Vec2) -> int {
    Vec2::dist_spec(fp.csys.anchors@[j].p, p)
}

/// Distance from `p` to wall `w` of the sketch.
pub open spec fn wall_dist_spec(fp: Floorplan, w: int, p: Vec2) -> int {
    dist_point_segment_spec(
        p,
        fp.csys.anchors@[fp.walls@[w].anchor_a as int].p,
        fp.csys.anchors@[fp.walls@[w].anchor_b as int].p,
    )
}

/// An interpolation step of at most the whole span: scaling a
/// difference by a proper fraction keeps the result between zero and
/// the difference.
proof fn lemma_scaled_step_between(t: int, dx: int, s: int)
    requires
        0 <= t <= s,
        0 < s,
    ensures
        dx >= 0 ==> 0 <= div_t(t * dx, s) <= dx,
        dx < 0 ==> dx <= div_t(t * dx, s) <= 0,
{
    if dx >= 0 {
        lemma_mul_nonneg_bound(t, dx, s, dx);
        lemma_div_pos_bound(t * dx, s, s * dx);
        vstd::arithmetic::div_mod::lemma_div_multiples_vanish(dx, s);
        assert(s * dx == dx * s) by (nonlinear_arith);
    } else {
        lemma_mul_nonneg_bound(t, -dx, s, -dx);
        lemma_div_pos_bound(t * (-dx), s, s * (-dx));
        vstd::arithmetic::div_mod::lemma_div_multiples_vanish(-dx, s);
        assert(s * (-dx) == (-dx) * s) by (nonlinear_arith);
        assert(t * (-dx) == -(t * dx)) by (nonlinear_arith);
    }
}

impl Floorplan {
    /// The constraint system is well formed and every wall references
    /// existing anchors.
    pub open spec fn wf(self) -> bool {
        &&& self.csys.wf()
        &&& forall|i: int|
            0 <= i < self.walls@.len() ==> (#[trigger] self.walls@[i]).anchor_a
                < self.csys.anchors@.len() && self.walls@[i].anchor_b < self.csys.anchors@.len()
    }

    /// Distance from `p` to the closest point of wall `wall_ndx`.
    pub fn distance_to_wall(&self, wall_ndx: usize, p: Vec2) -> (r: i64)
        requires
            self.wf(),
            wall_ndx < self.walls@.len(),
            p.in_box(),
        ensures
            r == wall_dist_spec(*self, wall_ndx as int, p),
            0 <= r <= MAX_DIST,
    {
        let wall = self.walls[wall_ndx];
        proof {
            assert(self.csys.anchors@[wall.anchor_a as int].wf());
            assert(self.csys.anchors@[wall.anchor_b as int].wf());
        }
        let pa = self.csys.anchors[wall.anchor_a].p;
        let pb = self.csys.anchors[wall.anchor_b].p;
        let dxw = pb.x as i128 - pa.x as i128;
        let dyw = pb.y as i128 - pa.y as i128;
        proof {
            lemma_mul_bound(dxw as int, dxw as int, 2 * MAX_COORD as int, 2 * MAX_COORD as int);
            lemma_mul_bound(dyw as int, dyw as int, 2 * MAX_COORD as int, 2 * MAX_COORD as int);
            crate::fixed::lemma_square_bound(dxw as int, 2 * MAX_COORD as int);
            crate::fixed::lemma_square_bound(dyw as int, 2 * MAX_COORD as int);
        }
        let l2 = dxw * dxw + dyw * dyw;
        if l2 == 0 {
            p.dist(pa)
        } else {
            proof {
                lemma_mul_bound(p.x as int - pa.x as int, dxw as int, 2 * MAX_COORD as int,
                    2 * MAX_COORD as int);
                lemma_mul_bound(p.y as int - pa.y as int, dyw as int, 2 * MAX_COORD as int,
                    2 * MAX_COORD as int);
            }
            let dot = (p.x as i128 - pa.x as i128) * dxw + (p.y as i128 - pa.y as i128) * dyw;
            proof {
                lemma_mul_bound(dot as int, SCALE as int,
                    8_000_000_000_000_000_000_000_000int, SCALE as int);
                lemma_div_t_mag(dot as int * SCALE as int,
                    8_000_000_000_000_000_000_000_000int * 1_000_000, l2 as int);
            }
            let traw = div_i128(dot * (SCALE as i128), l2);
            let t: i64 = if traw < 0 {
                0
            } else if traw > SCALE as i128 {
                SCALE
            } else {
                traw as i64
            };
            proof {
                lemma_mul_bound(t as int, dxw as int, SCALE as int, 2 * MAX_COORD as int);
                lemma_mul_bound(t as int, dyw as int, SCALE as int, 2 * MAX_COORD as int);
                lemma_scaled_step_between(t as int, dxw as int, SCALE as int);
                lemma_scaled_step_between(t as int, dyw as int, SCALE as int);
            }
            let sx = div_i128((t as i128) * dxw, SCALE as i128) as i64;
            let sy = div_i128((t as i128) * dyw, SCALE as i128) as i64;
            let proj = Vec2 { x: pa.x + sx, y: pa.y + sy };
            proj.dist(p)
        }
    }

    /// Find the first wall joining the unordered pair `{a, b}`.
    pub fn find_wall(&self, a: usize, b: usize) -> (r: Option<Wall>)
        ensures
            r == find_wall_spec(self.walls@, a as int, b as int),
    {
        let n = self.walls.len();
        let ghost s = self.walls@;
        proof {
            assert(s.skip(0) =~= s);
        }
        let mut i: usize = 0;
        while i < n
            invariant
                0 <= i <= n,
                n == s.len(),
                s == self.walls@,
                find_wall_spec(s.skip(i as int), a as int, b as int) == find_wall_spec(
                    s,
                    a as int,
                    b as int,
                ),
            decreases n - i,
        {
            let w = self.walls[i];
            proof {
                assert(s.skip(i as int)[0] == s[i as int]);
                assert(s.skip(i as int).drop_first() =~= s.skip(i as int + 1));
            }
            if (w.anchor_a == a && w.anchor_b == b) || (w.anchor_a == b && w.anchor_b == a) {
                return Some(w);
            }
            i = i + 1;
        }
        proof {
            assert(s.skip(n as int) =~= Seq::<Wall>::empty());
        }
        None
    }

    /// Find the closest anchor strictly within `threshold` of `pos`;
    /// ties go to the earliest such anchor.
    pub fn find_anchor(&self, pos: Vec2, threshold: i64) -> (r: Option<usize>)
        requires
            self.wf(),
            pos.in_box(),
        ensures
            match r {
                Some(i) => {
                    &&& i < self.csys.anchors@.len()
                    &&& anchor_dist_spec(*self, i as int, pos) < threshold
                    &&& forall|j: int|
                        0 <= j < self.csys.anchors@.len() ==> #[trigger] anchor_dist_spec(
                            *self,
                            j,
                            pos,
                        ) >= threshold || anchor_dist_spec(*self, i as int, pos)
                            <= anchor_dist_spec(*self, j, pos)
                    &&& forall|j: int|
                        0 <= j < i ==> #[trigger] anchor_dist_spec(*self, j, pos) >= threshold
                            || anchor_dist_spec(*self, i as int, pos) < anchor_dist_spec(
                            *self,
                            j,
                            pos,
                        )
                },
                None => forall|j: int|
                    0 <= j < self.csys.anchors@.len() ==> #[trigger] anchor_dist_spec(
                        *self,
                        j,
                        pos,
                    ) >= threshold,
            },
    {
        let n = self.csys.anchors.len();
        let mut best_d: i64 = i64::MAX;
        let mut closest_anc: Option<usize> = None;
        let mut ndx: usize = 0;
        while ndx < n
            invariant
                0 <= ndx <= n,
                n == self.csys.anchors@.len(),
                self.wf(),
                pos.in_box(),
                match closest_anc {
                    Some(i) => {
                        &&& i < ndx
                        &&& best_d == anchor_dist_spec(*self, i as int, pos)
                        &&& best_d < threshold
                        &&& forall|j: int|
                            0 <= j < ndx ==> #[trigger] anchor_dist_spec(*self, j, pos)
                                >= threshold || best_d <= anchor_dist_spec(*self, j, pos)
                        &&& forall|j: int|
                            0 <= j < i ==> #[trigger] anchor_dist_spec(*self, j, pos) >= threshold
                                || best_d < anchor_dist_spec(*self, j, pos)
                    },
                    None => best_d == i64::MAX && forall|j: int|
                        0 <= j < ndx ==> #[trigger] anchor_dist_spec(*self, j, pos) >= threshold,
                },
            decreases n - ndx,
        {
            proof {
                assert(self.csys.anchors@[ndx as int].wf());
            }
            let d = self.csys.anchors[ndx].p.dist(pos);
            if d < threshold && d < best_d {
                closest_anc = Some(ndx);
                best_d = d;
            }
            ndx = ndx + 1;
        }
        closest_anc
    }

    /// Find the closest wall strictly within `threshold` of `pos`;
    /// ties go to the earliest such wall.
    pub fn find_closest_wall(&self, pos: Vec2, threshold: i64) -> (r: Option<usize>)
        requires
            self.wf(),
            pos.in_box(),
        ensures
            match r {
                Some(i) => {
                    &&& i < self.walls@.len()
                    &&& wall_dist_spec(*self, i as int, pos) < threshold
                    &&& forall|j: int|
                        0 <= j < self.walls@.len() ==> #[trigger] wall_dist_spec(*self, j, pos)
                            >= threshold || wall_dist_spec(*self, i as int, pos) <= wall_dist_spec(
                            *self,
                            j,
                            pos,
                        )
                    &&& forall|j: int|
                        0 <= j < i ==> #[trigger] wall_dist_spec(*self, j, pos) >= threshold
                            || wall_dist_spec(*self, i as int, pos) < wall_dist_spec(*self, j, pos)
                },
                None => forall|j: int|
                    0 <= j < self.walls@.len() ==> #[trigger] wall_dist_spec(*self, j, pos)
                        >= threshold,
            },
    {
        let n = self.walls.len();
        let mut best_d: i64 = i64::MAX;
        let mut closest_wall: Option<usize> = None;
        let mut i: usize = 0;
        while i < n
            invariant
                0 <= i <= n,
                n == self.walls@.len(),
                self.wf(),
                pos.in_box(),
                match closest_wall {
                    Some(k) => {
                        &&& k < i
                        &&& best_d == wall_dist_spec(*self, k as int, pos)
                        &&& best_d < threshold
                        &&& forall|j: int|
                            0 <= j < i ==> #[trigger] wall_dist_spec(*self, j, pos) >= threshold
                                || best_d <= wall_dist_spec(*self, j, pos)
                        &&& forall|j: int|
                            0 <= j < k ==> #[trigger] wall_dist_spec(*self, j, pos) >= threshold
                                || best_d < wall_dist_spec(*self, j, pos)
                    },
                    None => best_d == i64::MAX && forall|j: int|
                        0 <= j < i ==> #[trigger] wall_dist_spec(*self, j, pos) >= threshold,
                },
            decreases n - i,
        {
            let d = self.distance_to_wall(i, pos);
            if d < threshold && d < best_d {
                closest_wall = Some(i);
                best_d = d;
            }
            i = i + 1;
        }
        closest_wall
    }

    /// The sketch every session starts from: four anchors, four walls
    /// around them, and one fixed-length constraint holding the left
    /// wall at its drawn length of 180 world units.
    pub fn make_starter_floorplan() -> (r: Floorplan)
        ensures
            r.wf(),
            r.csys.anchors@.len() == 4,
            r.csys.anchors@[0].p == (Vec2 { x: -100_000_000i64, y: -100_000_000i64 }),
            r.csys.anchors@[1].p == (Vec2 { x: 100_000_000i64, y: -100_000_000i64 }),
            r.csys.anchors@[2].p == (Vec2 { x: 100_000_000, y: 140_000_000 }),
            r.csys.anchors@[3].p == (Vec2 { x: -100_000_000i64, y: 80_000_000i64 }),
            forall|i: int|
                0 <= i < 4 ==> (#[trigger] r.csys.anchors@[i]).pin == PinMode::Unpinned,
            r.walls@.len() == 4,
            r.walls@[0] == (Wall { anchor_a: 0, anchor_b: 1, _style: WallStyle::Interior }),
            r.walls@[1] == (Wall { anchor_a: 1, anchor_b: 2, _style: WallStyle::Interior }),
            r.walls@[2] == (Wall { anchor_a: 2, anchor_b: 3, _style: WallStyle::Interior }),
            r.walls@[3] == (Wall { anchor_a: 3, anchor_b: 0, _style: WallStyle::Exterior }),
            r.csys.constraints@.len() == 1,
            r.csys.constraints@[0] == Constraint::FixedLength(
                FixedLengthConstraint { anc_a: 0, anc_b: 3, target_len: 180_000_000 },
            ),
    {
        let mut floorplan = Floorplan::default();
        let a = floorplan.csys.add_anchor(Vec2 { x: -100_000_000i64, y: -100_000_000i64 });
        let b = floorplan.csys.add_anchor(Vec2 { x: 100_000_000i64, y: -100_000_000i64 });
        let c = floorplan.csys.add_anchor(Vec2 { x: 100_000_000, y: 140_000_000 });
        let d = floorplan.csys.add_anchor(Vec2 { x: -100_000_000i64, y: 80_000_000i64 });
        floorplan.walls.push(Wall { anchor_a: a, anchor_b: b, _style: WallStyle::Interior });
        floorplan.walls.push(Wall { anchor_a: b, anchor_b: c, _style: WallStyle::Interior });
        floorplan.walls.push(Wall { anchor_a: c, anchor_b: d, _style: WallStyle::Interior });
        floorplan.walls.push(Wall { anchor_a: d, anchor_b: a, _style: WallStyle::Exterior });
        proof {
            let pa = floorplan.csys.anchors@[0].p;
            let pd = floorplan.csys.anchors@[3].p;
            assert(pd.x - pa.x == 0 && pd.y - pa.y == 180_000_000);
            assert(0 * 0 + 180_000_000int * 180_000_000 == 32_400_000_000_000_000int)
                by (nonlinear_arith);
            assert(180_000_000nat * 180_000_000nat == 32_400_000_000_000_000nat)
                by (nonlinear_arith);
            lemma_isqrt_square(180_000_000nat);
            assert(Vec2::dist_spec(pa, pd) == 180_000_000);
        }
        floorplan.csys.add_constraint_fixed_len(a, d, None);
        floorplan
    }

    /// Overwrite this sketch with a deep copy of `other`, as undo does
    /// when it restores a snapshot.
    pub fn copy_from(&mut self, other: Floorplan)
        ensures
            final(self).csys.anchors@ == other.csys.anchors@,
            final(self).csys.constraints@ == other.csys.constraints@,
            final(self).walls@ == other.walls@,
    {
        self.csys = other.csys.clone();
        self.walls = clone_vec_copy(&other.walls);
    }
}

/// The anchor store after resolving one end of a new wall, and the
/// index of that end: an existing anchor is used as is, otherwise a
/// new unpinned anchor is appended at the given position.
pub open spec fn resolve_anchor_spec(anchors: Seq<AnchorPoint>, opt: Option<usize>, p: Vec2) -> (
    Seq<AnchorPoint>,
    int,
) {
    match opt {
        Some(i) => (anchors, i as int),
        None => (
            anchors.push(AnchorPoint { p, p_orig: p, pin: PinMode::Unpinned }),
            anchors.len() as int,
        ),
    }
}

/// The wall list after asking for a wall over `{a, b}`: unchanged if
/// one already exists, else extended by a default-style wall.
pub open spec fn add_wall_spec(walls: Seq<Wall>, a: int, b: int) -> Seq<Wall> {
    if find_wall_spec(walls, a, b) is Some {
        walls
    } else {
        walls.push(Wall { anchor_a: a as usize, anchor_b: b as usize, _style: WallStyle::Interior })
    }
}

impl Floorplan {
    /// Create a wall from a drag gesture: each end uses the anchor the
    /// drag started or ended on, or a new anchor at the dragged
    /// position; the wall itself is added only if no wall already
    /// joins the two anchors.
    pub fn create_wall(
        &mut self,
        drag_start: Vec2,
        drag_end: Vec2,
        anc_start: Option<usize>,
        anc_end: Option<usize>,
    )
        requires
            old(self).wf(),
            drag_start.in_box(),
            drag_end.in_box(),
            anc_start matches Some(i) ==> i < old(self).csys.anchors@.len(),
            anc_end matches Some(i) ==> i < old(self).csys.anchors@.len(),
            old(self).csys.anchors@.len() + 2 < usize::MAX,
            old(self).walls@.len() < usize::MAX,
        ensures
            final(self).wf(),
            final(self).csys.constraints@ == old(self).csys.constraints@,
            ({
                let r1 = resolve_anchor_spec(old(self).csys.anchors@, anc_start, drag_start);
                let r2 = resolve_anchor_spec(r1.0, anc_end, drag_end);
                final(self).csys.anchors@ == r2.0 && final(self).walls@ == add_wall_spec(
                    old(self).walls@,
                    r1.1,
                    r2.1,
                )
            }),
    {
        let a = match anc_start {
            Some(i) => i,
            None => self.csys.add_anchor(drag_start),
        };
        let b = match anc_end {
            Some(i) => i,
            None => self.csys.add_anchor(drag_end),
        };
        let existing = self.find_wall(a, b);
        if existing.is_none() {
            self.walls.push(Wall { anchor_a: a, anchor_b: b, _style: WallStyle::Interior });
        }
    }
}

/// One undo snapshot: the operation's name, the whole sketch as it was
/// before the operation, and whether the operation was a drag-style
/// adjustment (so consecutive adjustments share one snapshot).
pub struct UndoCheckpoint {
    pub op_name: String,
    pub floorplan: Floorplan,
    pub adjust: bool,
}

/// The undo stack: snapshots pushed before each operation.
pub struct FloorplanUndoStack {
    pub stack: Vec<UndoCheckpoint>,
}

impl Default for FloorplanUndoStack {
    /// An empty stack.
    fn default() -> (r: Self)
        ensures
            r.stack@.len() == 0,
    {
        FloorplanUndoStack { stack: Vec::new() }
    }
}

impl FloorplanUndoStack {
    /// Push a snapshot of `floorplan` under the operation name `name`,
    /// marked as a discrete (non-adjust) operation.
    pub fn push_before_op(&mut self, name: &str, floorplan: &Floorplan)
        requires
            old(self).stack@.len() < usize::MAX,
        ensures
            final(self).stack@.len() == old(self).stack@.len() + 1,
            forall|i: int|
                0 <= i < old(self).stack@.len() ==> final(self).stack@[i] == old(self).stack@[i],
            final(self).stack@.last().op_name@ == name@,
            final(self).stack@.last().adjust == false,
            final(self).stack@.last().floorplan.csys.anchors@ == floorplan.csys.anchors@,
            final(self).stack@.last().floorplan.csys.constraints@ == floorplan.csys.constraints@,
            final(self).stack@.last().floorplan.walls@ == floorplan.walls@,
    {
        self.stack.push(
            UndoCheckpoint {
                op_name: String::from_str(name),
                floorplan: floorplan.clone(),
                adjust: false,
            },
        );
    }

    /// Push a snapshot of `floorplan` for a drag-style adjustment.
    pub fn push_before_adjust(&mut self, floorplan: &Floorplan)
        requires
            old(self).stack@.len() < usize::MAX,
        ensures
            final(self).stack@.len() == old(self).stack@.len() + 1,
            forall|i: int|
                0 <= i < old(self).stack@.len() ==> final(self).stack@[i] == old(self).stack@[i],
            final(self).stack@.last().adjust == true,
            final(self).stack@.last().floorplan.csys.anchors@ == floorplan.csys.anchors@,
            final(self).stack@.last().floorplan.csys.constraints@ == floorplan.csys.constraints@,
            final(self).stack@.last().floorplan.walls@ == floorplan.walls@,
    {
        self.stack.push(
            UndoCheckpoint {
                op_name: String::from_str("Adjust"),
                floorplan: floorplan.clone(),
                adjust: true,
            },
        );
    }

    /// Is the newest snapshot a drag-style adjustment? False when the
    /// stack is empty.
    pub fn is_top_adjust(&self) -> (r: bool)
        ensures
            r == (self.stack@.len() > 0 && self.stack@.last().adjust),
    {
        if self.stack.len() == 0 {
            return false;
        }
        let top = &self.stack[self.stack.len() - 1];
        top.adjust
    }
}

/// Keep everything that is not `item`.
pub open spec fn keeps_spec(item: usize) -> spec_fn(usize) -> bool {
    |x: usize| x != item
}

/// A selection list after a click on `item`: clicking a selected item
/// removes it everywhere, clicking an unselected one appends it.
pub open spec fn toggle_selection_spec(s: Seq<usize>, item: usize) -> Seq<usize> {
    if s.contains(item) {
        s.filter(keeps_spec(item))
    } else {
        s.push(item)
    }
}

/// Toggle `item` in a selection list, as clicking in a select mode
/// does.
pub fn toggle_selection(list: &mut Vec<usize>, item: usize)
    requires
        old(list)@.len() < usize::MAX,
    ensures
        final(list)@ == toggle_selection_spec(old(list)@, item),
{
    let ghost s = old(list)@;
    let n = list.len();
    let mut found = false;
    let mut i: usize = 0;
    while i < n
        invariant
            0 <= i <= n,
            n == s.len(),
            list@ == s,
            found == exists|j: int| 0 <= j < i && s[j] == item,
        decreases n - i,
    {
        if list[i] == item {
            found = true;
        }
        i = i + 1;
    }
    if found {
        let mut kept: Vec<usize> = Vec::new();
        let mut k: usize = 0;
        proof {
            reveal(Seq::filter);
            assert(s.take(0) =~= Seq::<usize>::empty());
        }
        while k < n
            invariant
                0 <= k <= n,
                n == s.len(),
                list@ == s,
                kept@ == s.take(k as int).filter(keeps_spec(item)),
            decreases n - k,
        {
            let v = list[k];
            proof {
                reveal(Seq::filter);
                assert(s.take(k as int + 1).drop_last() =~= s.take(k as int));
                assert(s.take(k as int + 1).last() == s[k as int]);
            }
            if v != item {
                kept.push(v);
            }
            k = k + 1;
        }
        proof {
            assert(s.take(n as int) =~= s);
            let j = choose|j: int| 0 <= j < n && s[j] == item;
            assert(s[j] == item);
            assert(s.contains(item));
        }
        *list = kept;
    } else {
        proof {
            assert(!s.contains(item));
        }
        list.push(item);
    }
}

/// Axis-align a cursor position against an alignment origin: keep the
/// coordinate that moved further from the origin and snap the other
/// one to it, as holding the alignment key does.
pub open spec fn align_cursor_spec(world_pos: Vec2, origin: Vec2) -> Vec2 {
    let adx = if world_pos.x - origin.x < 0 {
        -(world_pos.x - origin.x)
    } else {
        world_pos.x - origin.x
    };
    let ady = if world_pos.y - origin.y < 0 {
        -(world_pos.y - origin.y)
    } else {
        world_pos.y - origin.y
    };
    if adx > ady {
        Vec2 { x: world_pos.x, y: origin.y }
    } else {
        Vec2 { x: origin.x, y: world_pos.y }
    }
}

/// Snap a cursor position to the axis along which it moved further
/// from the alignment origin.
pub fn align_cursor(world_pos: Vec2, origin: Vec2) -> (r: Vec2)
    requires
        world_pos.in_box(),
        origin.in_box(),
    ensures
        r == align_cursor_spec(world_pos, origin),
        r.in_box(),
{
    let dx = world_pos.x - origin.x;
    let dy = world_pos.y - origin.y;
    let adx = if dx < 0 { -dx } else { dx };
    let ady = if dy < 0 { -dy } else { dy };
    if adx > ady {
        Vec2 { x: world_pos.x, y: origin.y }
    } else {
        Vec2 { x: origin.x, y: world_pos.y }
    }
}

} // verus!
