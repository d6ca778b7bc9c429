//! The cloth: a grid of particles linked by distance constraints, the
//! per-frame update (force accumulation, Verlet integration, constraint
//! relaxation), and cutting of the constraint nearest a query point.

use vstd::prelude::*;
use vstd::pervasive::VecAdditionalExecFns;

use crate::fixed::{tdiv, tdiv_i128, lemma_tdiv_scale_bound, LIMIT, UNIT};
use crate::vec2::{Vec2, vec2, bounded, sub_s, norm_s, norm_sq, neg_s, lemma_norm_bounds, vsub,
    vnorm};
use crate::point::{Point, apply_force_s, update_s, apply_s};
use crate::force_funcs::{hookes_s, damping_s, damping_force};
use crate::stick::{Stick, relax_pair_s, relax_pair};

verus! {

/// Cutting threshold: a constraint is removed when its segment passes
/// within 5 world units of the query point.
pub const THRESHOLD_FX: i64 = 5000;

/// Largest grid extent (in particles) along either axis.
pub const MAX_DIM: usize = 4000;

/// The particle grid and its constraints. Particles are stored row by
/// row in a flat vector: the particle at column `x`, row `y` sits at
/// index `y * width + x`.
pub struct Cloth {
    pub width: usize,
    pub height: usize,
    pub spacing: i64,
    pub points: Vec<Point>,
    pub sticks: Vec<Stick>,
}

impl Cloth {
    /// Grid well-formedness: positive dimensions within `MAX_DIM`, one
    /// well-formed particle per cell, and every constraint's endpoints
    /// in bounds and distinct.
    pub open spec fn wf(self) -> bool {
        &&& 0 < self.width <= MAX_DIM
        &&& 0 < self.height <= MAX_DIM
        &&& self.points@.len() == self.width * self.height
        &&& 0 < self.spacing <= LIMIT
        &&& forall|i: int| 0 <= i < self.points@.len() ==> (#[trigger] self.points@[i]).wf()
        &&& forall|i: int|
            0 <= i < self.sticks@.len() ==> (#[trigger] self.sticks@[i]).wf(
                self.width as int,
                self.height as int,
            )
    }
}

/// The flat index of grid coordinate `(x, y)`.
pub open spec fn flat_s(w: int, x: int, y: int) -> int {
    y * w + x
}

/// A flat index recovers its grid coordinate, so distinct in-bounds
/// coordinates have distinct flat indices.
pub proof fn lemma_flat_index(w: int, h: int, x: int, y: int)
    requires
        0 < w,
        0 < h,
        0 <= x < w,
        0 <= y < h,
    ensures
        0 <= flat_s(w, x, y) < w * h,
        flat_s(w, x, y) / w == y,
        flat_s(w, x, y) % w == x,
{
    vstd::arithmetic::div_mod::lemma_fundamental_div_mod_converse(y * w + x, w, y, x);
    assert(0 <= y * w + x && y * w + x < w * h) by (nonlinear_arith)
        requires
            0 < w && 0 < h && 0 <= x < w && 0 <= y < h;
}

/// Flat index of `(x, y)` for a grid `w` particles wide.
pub fn flat_idx(w: usize, x: usize, y: usize) -> (i: usize)
    requires
        0 < w <= MAX_DIM,
        x < w,
        y < MAX_DIM,
    ensures
        i == flat_s(w as int, x as int, y as int),
        i < w * MAX_DIM,
{
    proof {
        assert(y * w + x < w * (MAX_DIM as int) && w * (MAX_DIM as int) <= 16_000_000)
            by (nonlinear_arith)
            requires
                0 < w <= MAX_DIM as int && x < w && 0 <= y < MAX_DIM as int;
    }
    y * w + x
}

/// The particle the grid starts with at column `x`, row `y`: at rest at
/// the layout position, unit mass, pinned exactly on the even columns of
/// the top row.
pub open spec fn init_point_s(origin: Vec2, spacing: int, x: int, y: int) -> Point {
    Point {
        prev_pos: Vec2 {
            x: (origin.x + x * spacing) as i64,
            y: (origin.y + y * spacing) as i64,
        },
        pos: Vec2 { x: (origin.x + x * spacing) as i64, y: (origin.y + y * spacing) as i64 },
        vel: Vec2 { x: 0, y: 0 },
        acc: Vec2 { x: 0, y: 0 },
        mass: UNIT,
        pinned: y == 0 && x % 2 == 0,
    }
}

/// The constraints contributed by the first `cell` grid cells in row
/// scan order: each cell adds a constraint to its right neighbour and
/// one to the neighbour below, where those exist, at rest length
/// `spacing`.
pub open spec fn grid_sticks_upto(w: int, h: int, spacing: i64, cell: int) -> Seq<Stick>
    decreases cell,
{
    if cell <= 0 {
        Seq::empty()
    } else {
        let c = cell - 1;
        let x = c % w;
        let y = c / w;
        let s0 = grid_sticks_upto(w, h, spacing, c);
        let s1 = if x < w - 1 {
            s0.push(
                Stick {
                    p1_idx: (x as usize, y as usize),
                    p2_idx: ((x + 1) as usize, y as usize),
                    rest_length: spacing,
                },
            )
        } else {
            s0
        };
        if y < h - 1 {
            s1.push(
                Stick {
                    p1_idx: (x as usize, y as usize),
                    p2_idx: (x as usize, (y + 1) as usize),
                    rest_length: spacing,
                },
            )
        } else {
            s1
        }
    }
}

impl Cloth {
    /// Build a `width` by `height` grid anchored at `origin`, with
    /// `spacing` between adjacent particles both as layout pitch and as
    /// every constraint's rest length.
    pub fn new(width: usize, height: usize, spacing: i64, origin: Vec2) -> (c: Cloth)
        requires
            0 < width <= MAX_DIM,
            0 < height <= MAX_DIM,
            0 < spacing <= LIMIT,
            -(LIMIT as int) <= origin.x,
            origin.x + (width - 1) * spacing <= LIMIT as int,
            -(LIMIT as int) <= origin.y,
            origin.y + (height - 1) * spacing <= LIMIT as int,
        ensures
            c.wf(),
            c.width == width,
            c.height == height,
            c.spacing == spacing,
            c.points@.len() == width * height,
            forall|x: int, y: int|
                0 <= x < width && 0 <= y < height ==> #[trigger] c.points@[flat_s(
                    width as int,
                    x,
                    y,
                )] == init_point_s(origin, spacing as int, x, y),
            c.sticks@ == grid_sticks_upto(
                width as int,
                height as int,
                spacing,
                (width * height) as int,
            ),
    {
        let mut points: Vec<Point> = Vec::new();
        let mut sticks: Vec<Stick> = Vec::new();
        let mut y: usize = 0;
        while y < height
            invariant
                0 < width <= MAX_DIM,
                0 < height <= MAX_DIM,
                0 < spacing <= LIMIT,
                -(LIMIT as int) <= origin.x,
                origin.x + (width - 1) * spacing <= LIMIT as int,
                -(LIMIT as int) <= origin.y,
                origin.y + (height - 1) * spacing <= LIMIT as int,
                y <= height,
                points@.len() == y * width,
                forall|px: int, py: int|
                    0 <= px < width && 0 <= py < y ==> #[trigger] points@[flat_s(
                        width as int,
                        px,
                        py,
                    )] == init_point_s(origin, spacing as int, px, py),
            decreases height - y,
        {
            let mut x: usize = 0;
            while x < width
                invariant
                    0 < width <= MAX_DIM,
                    0 < height <= MAX_DIM,
                    0 < spacing <= LIMIT,
                    -(LIMIT as int) <= origin.x,
                    origin.x + (width - 1) * spacing <= LIMIT as int,
                    -(LIMIT as int) <= origin.y,
                    origin.y + (height - 1) * spacing <= LIMIT as int,
                    y < height,
                    x <= width,
                    points@.len() == y * width + x,
                    forall|px: int, py: int|
                        0 <= px < width && 0 <= py < y ==> #[trigger] points@[flat_s(
                            width as int,
                            px,
                            py,
                        )] == init_point_s(origin, spacing as int, px, py),
                    forall|px: int|
                        0 <= px < x ==> #[trigger] points@[flat_s(width as int, px, y as int)]
                            == init_point_s(origin, spacing as int, px, y as int),
                decreases width - x,
            {
                proof {
                    assert(0 <= x * spacing <= (width - 1) * spacing
                        && 0 <= y * spacing <= (height - 1) * spacing) by (nonlinear_arith)
                        requires
                            0 < spacing && 0 <= x < width && 0 <= y < height;
                    lemma_flat_index(width as int, height as int, x as int, y as int);
                }
                let px: i64 = origin.x + (x as i64) * spacing;
                let py: i64 = origin.y + (y as i64) * spacing;
                let pinned = y == 0 && x % 2 == 0;
                let p = Point::new(px, py, UNIT, pinned);
                points.push(p);
                proof {
                    assert forall|qx: int, qy: int|
                        0 <= qx < width && 0 <= qy < y implies #[trigger] points@[flat_s(
                        width as int,
                        qx,
                        qy,
                    )] == init_point_s(origin, spacing as int, qx, qy) by {
                        assert(0 <= qy * (width as int) + qx
                            && qy * (width as int) + qx < y as int * (width as int))
                            by (nonlinear_arith)
                            requires
                                0 <= qx < width as int && 0 <= qy && qy + 1 <= y as int
                                    && 0 < width as int;
                    }
                    assert(points@[flat_s(width as int, x as int, y as int)] == init_point_s(
                        origin,
                        spacing as int,
                        x as int,
                        y as int,
                    ));
                }
                x += 1;
            }
            proof {
                assert((y as int + 1) * (width as int) == y as int * (width as int)
                    + width as int) by (nonlinear_arith);
            }
            y += 1;
        }
        let total = flat_idx(width, width - 1, height - 1) + 1;
        let mut cell: usize = 0;
        proof {
            assert(total == width * height) by (nonlinear_arith)
                requires
                    total == (height - 1) * width + (width - 1) + 1 && 0 < width;
        }
        while cell < total
            invariant
                0 < width <= MAX_DIM,
                0 < height <= MAX_DIM,
                0 < spacing <= LIMIT,
                cell <= total,
                total == width * height,
                sticks@ == grid_sticks_upto(width as int, height as int, spacing, cell as int),
            decreases total - cell,
        {
            let x = cell % width;
            let y = cell / width;
            proof {
                vstd::arithmetic::div_mod::lemma_mod_bound(cell as int, width as int);
                vstd::arithmetic::div_mod::lemma_fundamental_div_mod(cell as int, width as int);
                assert(y < height) by (nonlinear_arith)
                    requires
                        cell as int == width as int * (y as int) + x as int && 0 <= x < width
                            && cell < width * height && 0 < width && 0 < height;
            }
            if x < width - 1 {
                sticks.push(
                    Stick { p1_idx: (x, y), p2_idx: (x + 1, y), rest_length: spacing },
                );
            }
            if y < height - 1 {
                sticks.push(
                    Stick { p1_idx: (x, y), p2_idx: (x, y + 1), rest_length: spacing },
                );
            }
            cell += 1;
        }
        let c = Cloth { width, height, spacing, points, sticks };
        proof {
            assert(points@.len() == (width as int) * (height as int)) by (nonlinear_arith)
                requires
                    points@.len() == (height as int) * (width as int);
            assert forall|qx: int, qy: int|
                0 <= qx < width && 0 <= qy < height implies #[trigger] c.points@[flat_s(
                width as int,
                qx,
                qy,
            )] == init_point_s(origin, spacing as int, qx, qy) by {
                lemma_flat_index(width as int, height as int, qx, qy);
            }
            assert forall|i: int| 0 <= i < c.points@.len() implies (#[trigger] c.points@[i]).wf()
            by {
                let ix = i % (width as int);
                let iy = i / (width as int);
                vstd::arithmetic::div_mod::lemma_fundamental_div_mod(i, width as int);
                vstd::arithmetic::div_mod::lemma_mod_bound(i, width as int);
                assert(0 <= iy < height && i == iy * (width as int) + ix) by (nonlinear_arith)
                    requires
                        i == (width as int) * iy + ix && 0 <= ix < width
                            && 0 <= i < (height as int) * (width as int) && 0 < width
                            && 0 < height;
                assert(c.points@[flat_s(width as int, ix, iy)] == init_point_s(
                    origin,
                    spacing as int,
                    ix,
                    iy,
                ));
                assert(0 <= ix * spacing <= (width - 1) * spacing
                    && 0 <= iy * spacing <= (height - 1) * spacing) by (nonlinear_arith)
                    requires
                        0 < spacing && 0 <= ix < width && 0 <= iy < height;
            }
            lemma_grid_sticks_wf(width as int, height as int, spacing, (width * height) as int);
        }
        c
    }
}

/// Minimum distance from `q` to the segment `[a, b]`: project `q` onto
/// the line through the segment, clamp the projection parameter to the
/// segment, and measure to the clamped point. A query beyond either end
/// therefore measures to the nearer endpoint, and a degenerate segment
/// measures to its (coincident) endpoints.
pub open spec fn dist_seg_s(q: Vec2, a: Vec2, b: Vec2) -> int {
    let v = sub_s(b, a);
    let w = sub_s(q, a);
    let lsq = norm_sq(v);
    let tn = w.x * v.x + w.y * v.y;
    if lsq == 0 || tn <= 0 {
        norm_s(sub_s(q, a))
    } else if tn >= lsq {
        norm_s(sub_s(q, b))
    } else {
        let px = a.x + tdiv(v.x * tn, lsq);
        let py = a.y + tdiv(v.y * tn, lsq);
        norm_s(Vec2 { x: (q.x - px) as i64, y: (q.y - py) as i64 })
    }
}

/// Minimum distance from `point` to the segment joining `a` and `b`.
pub fn distance_to_segment(point: Vec2, a: Vec2, b: Vec2) -> (d: i64)
    requires
        bounded(point),
        bounded(a),
        bounded(b),
    ensures
        d == dist_seg_s(point, a, b),
        0 <= d,
{
    let v = vsub(b, a);
    let w = vsub(point, a);
    proof {
        assert(0 <= v.x * v.x <= 4_000_000_000_000_000_000
            && 0 <= v.y * v.y <= 4_000_000_000_000_000_000
            && -4_000_000_000_000_000_000 <= w.x * v.x <= 4_000_000_000_000_000_000
            && -4_000_000_000_000_000_000 <= w.y * v.y <= 4_000_000_000_000_000_000)
            by (nonlinear_arith)
            requires
                -2_000_000_000 <= v.x <= 2_000_000_000 && -2_000_000_000 <= v.y <= 2_000_000_000
                    && -2_000_000_000 <= w.x <= 2_000_000_000 && -2_000_000_000 <= w.y
                    <= 2_000_000_000;
    }
    let lsq: i128 = (v.x as i128) * (v.x as i128) + (v.y as i128) * (v.y as i128);
    let tn: i128 = (w.x as i128) * (v.x as i128) + (w.y as i128) * (v.y as i128);
    if lsq == 0 || tn <= 0 {
        vnorm(w)
    } else if tn >= lsq {
        vnorm(vsub(point, b))
    } else {
        proof {
            lemma_tdiv_scale_bound(v.x as int, tn as int, lsq as int);
            lemma_tdiv_scale_bound(v.y as int, tn as int, lsq as int);
            assert(-20_000_000_000_000_000_000_000_000_000 <= v.x * tn
                <= 20_000_000_000_000_000_000_000_000_000
                && -20_000_000_000_000_000_000_000_000_000 <= v.y * tn
                <= 20_000_000_000_000_000_000_000_000_000) by (nonlinear_arith)
                requires
                    -2_000_000_000 <= v.x <= 2_000_000_000 && -2_000_000_000 <= v.y
                        <= 2_000_000_000 && -8_000_000_000_000_000_000 <= tn
                        <= 8_000_000_000_000_000_000;
        }
        let ax: i128 = tdiv_i128((v.x as i128) * tn, lsq);
        let ay: i128 = tdiv_i128((v.y as i128) * tn, lsq);
        let px: i64 = a.x + (ax as i64);
        let py: i64 = a.y + (ay as i64);
        let dq = Vec2 { x: point.x - px, y: point.y - py };
        vnorm(dq)
    }
}

/// Law: the distance from a query point equal to either endpoint is zero.
pub proof fn lemma_distance_at_endpoints(q: Vec2, a: Vec2, b: Vec2)
    ensures
        q == a ==> dist_seg_s(q, a, b) == 0,
        q == b ==> dist_seg_s(q, a, b) == 0,
{
    crate::fixed::lemma_sqrt_square(0);
    if q == a {
        let w = sub_s(q, a);
        assert(w.x == 0 && w.y == 0);
        assert(norm_sq(w) == 0) by (nonlinear_arith)
            requires
                w.x == 0 && w.y == 0;
        let v = sub_s(b, a);
        assert(w.x * v.x == 0 && w.y * v.y == 0) by (nonlinear_arith)
            requires
                w.x == 0 && w.y == 0;
    }
    if q == b {
        let v = sub_s(b, a);
        let w = sub_s(q, a);
        lemma_norm_bounds(v);
        assert(w == v);
        let dqb = sub_s(q, b);
        assert(dqb.x == 0 && dqb.y == 0);
        assert(norm_sq(dqb) == 0) by (nonlinear_arith)
            requires
                dqb.x == 0 && dqb.y == 0;
        if norm_sq(v) == 0 {
            assert(norm_s(sub_s(q, a)) == 0);
        }
    }
}

/// Law: a query point beyond either end of the segment (the projection
/// parameter falls outside `[0, 1]`) measures its distance to the nearer
/// endpoint, not to the infinite line.
pub proof fn lemma_distance_beyond_endpoints(q: Vec2, a: Vec2, b: Vec2)
    ensures
        ({
            let v = sub_s(b, a);
            let w = sub_s(q, a);
            let tn = w.x * v.x + w.y * v.y;
            &&& tn <= 0 ==> dist_seg_s(q, a, b) == norm_s(sub_s(q, a))
            &&& (norm_sq(v) != 0 && tn >= norm_sq(v)) ==> dist_seg_s(q, a, b) == norm_s(
                sub_s(q, b),
            )
        }),
{
    lemma_norm_bounds(sub_s(b, a));
}

/// The distance from `q` to the segment of stick `st` over the particle
/// collection `pts`.
pub open spec fn stick_dist_s(pts: Seq<Point>, w: int, st: Stick, q: Vec2) -> int {
    dist_seg_s(
        q,
        pts[flat_s(w, st.p1_idx.0 as int, st.p1_idx.1 as int)].pos,
        pts[flat_s(w, st.p2_idx.0 as int, st.p2_idx.1 as int)].pos,
    )
}

/// The first index at or after `i` whose stick lies within the cutting
/// threshold of `q`, or the collection's length if there is none.
pub open spec fn first_hit_from(
    pts: Seq<Point>,
    w: int,
    sticks: Seq<Stick>,
    q: Vec2,
    i: int,
) -> int
    decreases sticks.len() - i,
{
    if i < 0 || i >= sticks.len() {
        sticks.len() as int
    } else if stick_dist_s(pts, w, sticks[i], q) < THRESHOLD_FX {
        i
    } else {
        first_hit_from(pts, w, sticks, q, i + 1)
    }
}

/// The constraint collection after one cutting query at `q`: the first
/// stick within the threshold, in storage order, is removed; a miss
/// leaves the collection unchanged.
pub open spec fn cut_s(pts: Seq<Point>, w: int, sticks: Seq<Stick>, q: Vec2) -> Seq<Stick> {
    let h = first_hit_from(pts, w, sticks, q, 0);
    if h < sticks.len() {
        sticks.remove(h)
    } else {
        sticks
    }
}

impl Cloth {
    /// Remove the first constraint, in storage order, whose segment lies
    /// within the cutting threshold of `mouse_pos`; at most one
    /// constraint is removed, and a miss changes nothing. The number of
    /// constraints never increases.
    pub fn cut_stick(&mut self, mouse_pos: Vec2)
        requires
            old(self).wf(),
            bounded(mouse_pos),
        ensures
            final(self).wf(),
            final(self).width == old(self).width,
            final(self).height == old(self).height,
            final(self).spacing == old(self).spacing,
            final(self).points@ == old(self).points@,
            final(self).sticks@ == cut_s(
                old(self).points@,
                old(self).width as int,
                old(self).sticks@,
                mouse_pos,
            ),
            final(self).sticks@.len() <= old(self).sticks@.len(),
            first_hit_from(
                old(self).points@,
                old(self).width as int,
                old(self).sticks@,
                mouse_pos,
                0,
            ) == old(self).sticks@.len() ==> *final(self) == *old(self),
    {
        let ghost pts0 = self.points@;
        let ghost sticks0 = self.sticks@;
        let ghost w = self.width as int;
        let mut i: usize = 0;
        while i < self.sticks.len()
            invariant
                *self == *old(self),
                old(self).wf(),
                bounded(mouse_pos),
                i <= sticks0.len(),
                pts0 == self.points@,
                sticks0 == self.sticks@,
                w == self.width as int,
                first_hit_from(pts0, w, sticks0, mouse_pos, 0) == first_hit_from(
                    pts0,
                    w,
                    sticks0,
                    mouse_pos,
                    i as int,
                ),
            decreases self.sticks@.len() - i,
        {
            let st = self.sticks[i];
            proof {
                lemma_flat_index(
                    w,
                    self.height as int,
                    st.p1_idx.0 as int,
                    st.p1_idx.1 as int,
                );
                lemma_flat_index(
                    w,
                    self.height as int,
                    st.p2_idx.0 as int,
                    st.p2_idx.1 as int,
                );
            }
            let i1 = flat_idx(self.width, st.p1_idx.0, st.p1_idx.1);
            let i2 = flat_idx(self.width, st.p2_idx.0, st.p2_idx.1);
            let a = self.points[i1];
            let b = self.points[i2];
            let d = distance_to_segment(mouse_pos, a.pos, b.pos);
            if d < THRESHOLD_FX {
                proof {
                    assert(first_hit_from(pts0, w, sticks0, mouse_pos, i as int) == i);
                }
                self.sticks.remove(i);
                proof {
                    sticks0.remove_ensures(i as int);
                    assert forall|j: int|
                        0 <= j < self.sticks@.len() implies (#[trigger] self.sticks@[j]).wf(
                        self.width as int,
                        self.height as int,
                    ) by {
                        if j < i {
                            assert(self.sticks@[j] == sticks0[j]);
                        } else {
                            assert(self.sticks@[j] == sticks0[j + 1]);
                        }
                    }
                }
                return;
            }
            i += 1;
        }
    }
}

/// One constraint's contribution to the force pass: the spring force is
/// added to its first endpoint's accumulator and subtracted from the
/// second's. Positions are untouched, so the contributions of distinct
/// constraints do not interfere.
pub open spec fn stick_force_s(pts: Seq<Point>, w: int, st: Stick) -> Seq<Point> {
    let i1 = flat_s(w, st.p1_idx.0 as int, st.p1_idx.1 as int);
    let i2 = flat_s(w, st.p2_idx.0 as int, st.p2_idx.1 as int);
    let f = hookes_s(pts[i1], pts[i2], st.rest_length as int);
    let pts1 = pts.update(i1, apply_force_s(pts[i1], f));
    pts1.update(i2, apply_force_s(pts1[i2], neg_s(f)))
}

/// The force pass applied for the first `n` constraints, in storage
/// order.
pub open spec fn force_pass_s(pts: Seq<Point>, w: int, sticks: Seq<Stick>, n: int) -> Seq<Point>
    decreases n,
{
    if n <= 0 {
        pts
    } else {
        stick_force_s(force_pass_s(pts, w, sticks, n - 1), w, sticks[n - 1])
    }
}

/// One particle's integration step: an unpinned particle accumulates
/// gravity and damping and takes a Verlet step; a pinned particle stays
/// exactly where it is, with its force accumulator cleared for the next
/// frame.
pub open spec fn step_point_s(p: Point) -> Point {
    if p.pinned {
        Point { acc: Vec2 { x: 0, y: 0 }, ..p }
    } else {
        apply_s(apply_force_s(update_s(p), damping_s(p)))
    }
}

/// The integration pass: every particle steps independently.
pub open spec fn integrate_s(pts: Seq<Point>) -> Seq<Point> {
    pts.map_values(|p: Point| step_point_s(p))
}

/// One constraint's contribution to the relaxation pass.
pub open spec fn stick_relax_s(pts: Seq<Point>, w: int, st: Stick) -> Seq<Point> {
    let i1 = flat_s(w, st.p1_idx.0 as int, st.p1_idx.1 as int);
    let i2 = flat_s(w, st.p2_idx.0 as int, st.p2_idx.1 as int);
    let pr = relax_pair_s(pts[i1], pts[i2], st.rest_length as int);
    pts.update(i1, pr.0).update(i2, pr.1)
}

/// The relaxation pass applied for the first `n` constraints, in
/// storage order.
pub open spec fn relax_pass_s(pts: Seq<Point>, w: int, sticks: Seq<Stick>, n: int) -> Seq<Point>
    decreases n,
{
    if n <= 0 {
        pts
    } else {
        stick_relax_s(relax_pass_s(pts, w, sticks, n - 1), w, sticks[n - 1])
    }
}

/// One full frame: force accumulation over every constraint, then the
/// integration step of every particle, then one relaxation pass over
/// every constraint, in that order.
pub open spec fn step_grid_s(pts: Seq<Point>, w: int, sticks: Seq<Stick>) -> Seq<Point> {
    relax_pass_s(
        integrate_s(force_pass_s(pts, w, sticks, sticks.len() as int)),
        w,
        sticks,
        sticks.len() as int,
    )
}

impl Cloth {
    /// Accumulate every constraint's spring force into its endpoints.
    fn force_pass(&mut self)
        requires
            old(self).wf(),
        ensures
            final(self).wf(),
            final(self).width == old(self).width,
            final(self).height == old(self).height,
            final(self).spacing == old(self).spacing,
            final(self).sticks@ == old(self).sticks@,
            final(self).points@.len() == old(self).points@.len(),
            final(self).points@ == force_pass_s(
                old(self).points@,
                old(self).width as int,
                old(self).sticks@,
                old(self).sticks@.len() as int,
            ),
    {
        let ghost pts0 = self.points@;
        let ghost sticks0 = self.sticks@;
        let ghost w = self.width as int;
        let mut i: usize = 0;
        while i < self.sticks.len()
            invariant
                self.wf(),
                self.width == old(self).width,
                self.height == old(self).height,
                self.spacing == old(self).spacing,
                self.sticks@ == sticks0,
                sticks0 == old(self).sticks@,
                pts0 == old(self).points@,
                w == self.width as int,
                i <= sticks0.len(),
                self.points@.len() == pts0.len(),
                self.points@ == force_pass_s(pts0, w, sticks0, i as int),
            decreases sticks0.len() - i,
        {
            let st = self.sticks[i];
            st.update(&mut self.points, self.width, self.height);
            proof {
                assert(self.points@ == stick_force_s(
                    force_pass_s(pts0, w, sticks0, i as int),
                    w,
                    sticks0[i as int],
                ));
                assert(self.points@ == force_pass_s(pts0, w, sticks0, i + 1));
            }
            i += 1;
        }
    }

    /// Integrate every particle one time step.
    fn integrate_pass(&mut self)
        requires
            old(self).wf(),
        ensures
            final(self).wf(),
            final(self).width == old(self).width,
            final(self).height == old(self).height,
            final(self).spacing == old(self).spacing,
            final(self).sticks@ == old(self).sticks@,
            final(self).points@.len() == old(self).points@.len(),
            final(self).points@ == integrate_s(old(self).points@),
    {
        let ghost pts0 = self.points@;
        let mut i: usize = 0;
        let n = self.points.len();
        while i < n
            invariant
                self.wf(),
                self.width == old(self).width,
                self.height == old(self).height,
                self.spacing == old(self).spacing,
                self.sticks@ == old(self).sticks@,
                pts0 == old(self).points@,
                i <= n,
                n == self.points@.len(),
                self.points@.len() == pts0.len(),
                forall|j: int| i <= j < pts0.len() ==> self.points@[j] == pts0[j],
                forall|j: int|
                    0 <= j < i ==> self.points@[j] == step_point_s(#[trigger] pts0[j]),
            decreases n - i,
        {
            let mut p = self.points[i];
            if p.pinned {
                p.acc = vec2(0, 0);
            } else {
                p.update();
                let df = damping_force(&p);
                p.apply_force(df);
                p.apply();
            }
            self.points.set(i, p);
            i += 1;
        }
        proof {
            assert(self.points@ =~= integrate_s(pts0));
        }
    }

    /// Relax every constraint once, in storage order.
    fn relax_pass(&mut self)
        requires
            old(self).wf(),
        ensures
            final(self).wf(),
            final(self).width == old(self).width,
            final(self).height == old(self).height,
            final(self).spacing == old(self).spacing,
            final(self).sticks@ == old(self).sticks@,
            final(self).points@.len() == old(self).points@.len(),
            final(self).points@ == relax_pass_s(
                old(self).points@,
                old(self).width as int,
                old(self).sticks@,
                old(self).sticks@.len() as int,
            ),
    {
        let ghost pts0 = self.points@;
        let ghost sticks0 = self.sticks@;
        let ghost w = self.width as int;
        let mut i: usize = 0;
        while i < self.sticks.len()
            invariant
                self.wf(),
                self.width == old(self).width,
                self.height == old(self).height,
                self.spacing == old(self).spacing,
                self.sticks@ == sticks0,
                sticks0 == old(self).sticks@,
                pts0 == old(self).points@,
                w == self.width as int,
                i <= sticks0.len(),
                self.points@.len() == pts0.len(),
                self.points@ == relax_pass_s(pts0, w, sticks0, i as int),
            decreases sticks0.len() - i,
        {
            let st = self.sticks[i];
            proof {
                lemma_flat_index(w, self.height as int, st.p1_idx.0 as int, st.p1_idx.1 as int);
                lemma_flat_index(w, self.height as int, st.p2_idx.0 as int, st.p2_idx.1 as int);
            }
            let i1 = flat_idx(self.width, st.p1_idx.0, st.p1_idx.1);
            let i2 = flat_idx(self.width, st.p2_idx.0, st.p2_idx.1);
            proof {
                assert(i1 != i2);
            }
            let a = self.points[i1];
            let b = self.points[i2];
            let pr = relax_pair(a, b, st.rest_length);
            self.points.set(i1, pr.0);
            self.points.set(i2, pr.1);
            proof {
                assert(self.points@ == stick_relax_s(
                    relax_pass_s(pts0, w, sticks0, i as int),
                    w,
                    sticks0[i as int],
                ));
                assert(self.points@ == relax_pass_s(pts0, w, sticks0, i + 1));
            }
            i += 1;
        }
    }

    /// Advance the simulation one frame: accumulate constraint forces,
    /// integrate every unpinned particle under gravity and damping, then
    /// relax every constraint toward its rest length. The constraint
    /// collection itself is unchanged.
    pub fn update(&mut self)
        requires
            old(self).wf(),
        ensures
            final(self).wf(),
            final(self).width == old(self).width,
            final(self).height == old(self).height,
            final(self).spacing == old(self).spacing,
            final(self).sticks@ == old(self).sticks@,
            final(self).points@.len() == old(self).points@.len(),
            final(self).points@ == step_grid_s(
                old(self).points@,
                old(self).width as int,
                old(self).sticks@,
            ),
            forall|i: int|
                0 <= i < old(self).points@.len() ==> {
                    let p0 = #[trigger] old(self).points@[i];
                    let p2 = final(self).points@[i];
                    p2.pinned == p0.pinned && (p0.pinned ==> (p2.pos == p0.pos && p2.prev_pos
                        == p0.prev_pos))
                },
    {
        self.force_pass();
        self.integrate_pass();
        self.relax_pass();
        proof {
            lemma_step_preserves_pinned(
                old(self).points@,
                old(self).width as int,
                old(self).height as int,
                old(self).sticks@,
            );
        }
    }
}

/// The grid state after `n` whole frames.
pub open spec fn steps_grid_s(pts: Seq<Point>, w: int, sticks: Seq<Stick>, n: int) -> Seq<Point>
    decreases n,
{
    if n <= 0 {
        pts
    } else {
        step_grid_s(steps_grid_s(pts, w, sticks, n - 1), w, sticks)
    }
}

/// The force pass changes only force accumulators: every particle keeps
/// its positions, velocity, mass and pin flag.
proof fn lemma_force_pass_frame(pts: Seq<Point>, w: int, h: int, sticks: Seq<Stick>, n: int)
    requires
        0 < w,
        0 < h,
        pts.len() == w * h,
        0 <= n <= sticks.len(),
        forall|i: int| 0 <= i < sticks.len() ==> (#[trigger] sticks[i]).wf(w, h),
    ensures
        force_pass_s(pts, w, sticks, n).len() == pts.len(),
        forall|i: int|
            0 <= i < pts.len() ==> {
                let p2 = #[trigger] force_pass_s(pts, w, sticks, n)[i];
                p2.pos == pts[i].pos && p2.prev_pos == pts[i].prev_pos && p2.vel == pts[i].vel
                    && p2.mass == pts[i].mass && p2.pinned == pts[i].pinned
            },
    decreases n,
{
    if n > 0 {
        lemma_force_pass_frame(pts, w, h, sticks, n - 1);
        let st = sticks[n - 1];
        lemma_flat_index(w, h, st.p1_idx.0 as int, st.p1_idx.1 as int);
        lemma_flat_index(w, h, st.p2_idx.0 as int, st.p2_idx.1 as int);
    }
}

/// The relaxation pass changes only positions, and only of unpinned
/// particles: every particle keeps its previous position, velocity,
/// accumulator, mass and pin flag, and a pinned particle also keeps its
/// position.
proof fn lemma_relax_pass_frame(pts: Seq<Point>, w: int, h: int, sticks: Seq<Stick>, n: int)
    requires
        0 < w,
        0 < h,
        pts.len() == w * h,
        0 <= n <= sticks.len(),
        forall|i: int| 0 <= i < sticks.len() ==> (#[trigger] sticks[i]).wf(w, h),
    ensures
        relax_pass_s(pts, w, sticks, n).len() == pts.len(),
        forall|i: int|
            0 <= i < pts.len() ==> {
                let p2 = #[trigger] relax_pass_s(pts, w, sticks, n)[i];
                p2.prev_pos == pts[i].prev_pos && p2.vel == pts[i].vel && p2.acc == pts[i].acc
                    && p2.mass == pts[i].mass && p2.pinned == pts[i].pinned && (pts[i].pinned
                    ==> p2.pos == pts[i].pos)
            },
    decreases n,
{
    if n > 0 {
        lemma_relax_pass_frame(pts, w, h, sticks, n - 1);
        let st = sticks[n - 1];
        lemma_flat_index(w, h, st.p1_idx.0 as int, st.p1_idx.1 as int);
        lemma_flat_index(w, h, st.p2_idx.0 as int, st.p2_idx.1 as int);
    }
}

/// Law: one whole frame never moves a pinned particle. Both stored
/// positions of every pinned particle are identical before and after the
/// frame, and no particle's pin flag or mass ever changes.
pub proof fn lemma_step_preserves_pinned(pts: Seq<Point>, w: int, h: int, sticks: Seq<Stick>)
    requires
        0 < w,
        0 < h,
        pts.len() == w * h,
        forall|i: int| 0 <= i < sticks.len() ==> (#[trigger] sticks[i]).wf(w, h),
    ensures
        step_grid_s(pts, w, sticks).len() == pts.len(),
        forall|i: int|
            0 <= i < pts.len() ==> {
                let p2 = #[trigger] step_grid_s(pts, w, sticks)[i];
                p2.pinned == pts[i].pinned && p2.mass == pts[i].mass && (pts[i].pinned ==> (
                p2.pos == pts[i].pos && p2.prev_pos == pts[i].prev_pos))
            },
{
    let n = sticks.len() as int;
    let forced = force_pass_s(pts, w, sticks, n);
    lemma_force_pass_frame(pts, w, h, sticks, n);
    let stepped = integrate_s(forced);
    assert(stepped.len() == forced.len());
    assert forall|i: int| 0 <= i < forced.len() implies #[trigger] stepped[i] == step_point_s(
        forced[i],
    ) by {}
    lemma_relax_pass_frame(stepped, w, h, sticks, n);
}

/// Law: any number of whole frames never moves a pinned particle.
pub proof fn lemma_steps_preserve_pinned(
    pts: Seq<Point>,
    w: int,
    h: int,
    sticks: Seq<Stick>,
    n: int,
)
    requires
        0 < w,
        0 < h,
        pts.len() == w * h,
        0 <= n,
        forall|i: int| 0 <= i < sticks.len() ==> (#[trigger] sticks[i]).wf(w, h),
    ensures
        steps_grid_s(pts, w, sticks, n).len() == pts.len(),
        forall|i: int|
            0 <= i < pts.len() ==> {
                let p2 = #[trigger] steps_grid_s(pts, w, sticks, n)[i];
                p2.pinned == pts[i].pinned && (pts[i].pinned ==> (p2.pos == pts[i].pos
                    && p2.prev_pos == pts[i].prev_pos))
            },
    decreases n,
{
    if n > 0 {
        lemma_steps_preserve_pinned(pts, w, h, sticks, n - 1);
        lemma_step_preserves_pinned(steps_grid_s(pts, w, sticks, n - 1), w, h, sticks);
    }
}

/// The first hit lies between the scan start and the collection length.
proof fn lemma_first_hit_bounds(pts: Seq<Point>, w: int, sticks: Seq<Stick>, q: Vec2, i: int)
    requires
        0 <= i <= sticks.len(),
    ensures
        i <= first_hit_from(pts, w, sticks, q, i) <= sticks.len(),
    decreases sticks.len() - i,
{
    if i < sticks.len() && !(stick_dist_s(pts, w, sticks[i], q) < THRESHOLD_FX) {
        lemma_first_hit_bounds(pts, w, sticks, q, i + 1);
    }
}

/// Law: one cutting query never increases the number of constraints; it
/// removes exactly one on a hit and none on a miss.
pub proof fn lemma_cut_monotone(pts: Seq<Point>, w: int, sticks: Seq<Stick>, q: Vec2)
    ensures
        cut_s(pts, w, sticks, q).len() <= sticks.len(),
{
    lemma_first_hit_bounds(pts, w, sticks, q, 0);
    let h = first_hit_from(pts, w, sticks, q, 0);
    if h < sticks.len() {
        sticks.remove_ensures(h);
    }
}

/// The constraint collection after a whole sequence of cutting queries,
/// applied in order.
pub open spec fn cuts_s(pts: Seq<Point>, w: int, sticks: Seq<Stick>, qs: Seq<Vec2>) -> Seq<
    Stick,
>
    decreases qs.len(),
{
    if qs.len() == 0 {
        sticks
    } else {
        cuts_s(pts, w, cut_s(pts, w, sticks, qs[0]), qs.drop_first())
    }
}

/// Law: after any sequence of cutting queries the number of constraints
/// is at most the number before; it never increases.
pub proof fn lemma_cuts_monotone(pts: Seq<Point>, w: int, sticks: Seq<Stick>, qs: Seq<Vec2>)
    ensures
        cuts_s(pts, w, sticks, qs).len() <= sticks.len(),
    decreases qs.len(),
{
    if qs.len() > 0 {
        lemma_cut_monotone(pts, w, sticks, qs[0]);
        lemma_cuts_monotone(pts, w, cut_s(pts, w, sticks, qs[0]), qs.drop_first());
    }
}

/// Every constraint generated from grid adjacency is well-formed.
proof fn lemma_grid_sticks_wf(w: int, h: int, spacing: i64, cell: int)
    requires
        0 < w <= MAX_DIM,
        0 < h <= MAX_DIM,
        0 < spacing <= LIMIT,
        cell <= w * h,
    ensures
        forall|i: int|
            0 <= i < grid_sticks_upto(w, h, spacing, cell).len() ==> (#[trigger] grid_sticks_upto(
                w,
                h,
                spacing,
                cell,
            )[i]).wf(w, h),
    decreases cell,
{
    if cell > 0 {
        lemma_grid_sticks_wf(w, h, spacing, cell - 1);
        let c = cell - 1;
        let x = c % w;
        let y = c / w;
        vstd::arithmetic::div_mod::lemma_fundamental_div_mod(c, w);
        vstd::arithmetic::div_mod::lemma_mod_bound(c, w);
        assert(0 <= y < h && c == y * w + x) by (nonlinear_arith)
            requires
                c == w * y + x && 0 <= x < w && 0 <= c < w * h && 0 < w && 0 < h;
        let s0 = grid_sticks_upto(w, h, spacing, c);
        let horiz = Stick {
            p1_idx: (x as usize, y as usize),
            p2_idx: ((x + 1) as usize, y as usize),
            rest_length: spacing,
        };
        let vert = Stick {
            p1_idx: (x as usize, y as usize),
            p2_idx: (x as usize, (y + 1) as usize),
            rest_length: spacing,
        };
        let s1 = if x < w - 1 {
            s0.push(horiz)
        } else {
            s0
        };
        let s2 = if y < h - 1 {
            s1.push(vert)
        } else {
            s1
        };
        assert(grid_sticks_upto(w, h, spacing, cell) == s2);
        assert(x < w - 1 ==> horiz.wf(w, h));
        assert(y < h - 1 ==> vert.wf(w, h));
    }
}

} // verus!
