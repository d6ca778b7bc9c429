//! A distance constraint ("stick") between two particles of the grid,
//! referenced by their grid coordinates, and the positional relaxation
//! step that nudges a constrained pair back toward its rest length.

use vstd::prelude::*;

use vstd::pervasive::VecAdditionalExecFns;

use crate::fixed::{abs_s, clip, sqrt_s, tdiv, tdiv_i128, lemma_sqrt_square,
    lemma_tdiv_scale_bound_gen, LIMIT};
use crate::vec2::{Vec2, bounded, sub_s, norm_s, lemma_norm_bounds, vsub, vneg, vnorm};
use crate::point::Point;
use crate::force_funcs::hookes_law;
use crate::cloth::{flat_idx, lemma_flat_index, stick_force_s, MAX_DIM};

verus! {

/// A constraint between the particles at grid coordinates `p1_idx` and
/// `p2_idx` (each `(column, row)`), with a fixed rest length. It refers
/// to the particles by coordinate only and never owns them.
#[derive(Clone, Copy, Debug, PartialEq, Eq)]
pub struct Stick {
    pub p1_idx: (usize, usize),
    pub p2_idx: (usize, usize),
    pub rest_length: i64,
}

impl Stick {
    /// Valid endpoints for a `width` by `height` grid: in bounds,
    /// distinct, with a positive storable rest length.
    pub open spec fn wf(self, width: int, height: int) -> bool {
        &&& self.p1_idx.0 < width && self.p1_idx.1 < height
        &&& self.p2_idx.0 < width && self.p2_idx.1 < height
        &&& self.p1_idx != self.p2_idx
        &&& 0 < self.rest_length <= LIMIT
    }

    /// Whether the particle at grid coordinate `(x, y)` is one of the two
    /// endpoints.
    pub fn involves_point(&self, x: usize, y: usize) -> (r: bool)
        ensures
            r == (self.p1_idx == (x, y) || self.p2_idx == (x, y)),
    {
        (self.p1_idx.0 == x && self.p1_idx.1 == y) || (self.p2_idx.0 == x && self.p2_idx.1 == y)
    }

    /// Accumulate this constraint's spring force into its two
    /// endpoints: the restoring force is added to the first endpoint's
    /// accumulator and its negation to the second's. Positions are not
    /// touched.
    pub fn update(&self, points: &mut Vec<Point>, width: usize, height: usize)
        requires
            0 < width <= MAX_DIM,
            0 < height <= MAX_DIM,
            self.wf(width as int, height as int),
            old(points)@.len() == width * height,
            forall|i: int| 0 <= i < old(points)@.len() ==> (#[trigger] old(points)@[i]).wf(),
        ensures
            final(points)@.len() == old(points)@.len(),
            forall|i: int| 0 <= i < final(points)@.len() ==> (#[trigger] final(points)@[i]).wf(),
            final(points)@ == stick_force_s(old(points)@, width as int, *self),
    {
        proof {
            lemma_flat_index(
                width as int,
                height as int,
                self.p1_idx.0 as int,
                self.p1_idx.1 as int,
            );
            lemma_flat_index(
                width as int,
                height as int,
                self.p2_idx.0 as int,
                self.p2_idx.1 as int,
            );
        }
        let i1 = flat_idx(width, self.p1_idx.0, self.p1_idx.1);
        let i2 = flat_idx(width, self.p2_idx.0, self.p2_idx.1);
        proof {
            assert(i1 != i2);
        }
        let a = points[i1];
        let b = points[i2];
        let f = hookes_law(&a, &b, self.rest_length);
        let mut a2 = a;
        a2.apply_force(f);
        let negf = vneg(f);
        let mut b2 = b;
        b2.apply_force(negf);
        points.set(i1, a2);
        points.set(i2, b2);
    }

    /// The endpoint other than `(x, y)`; `(x, y)` must be an endpoint.
    pub fn other_point(&self, x: usize, y: usize) -> (r: (usize, usize))
        requires
            self.p1_idx == (x, y) || self.p2_idx == (x, y),
        ensures
            r == if self.p1_idx == (x, y) {
                self.p2_idx
            } else {
                self.p1_idx
            },
    {
        if self.p1_idx.0 == x && self.p1_idx.1 == y {
            self.p2_idx
        } else {
            self.p1_idx
        }
    }
}

/// The relaxation adjustment for a pair at rest length `rest`: half the
/// displacement scaled by the fractional length error, `delta * (len -
/// rest) / (2 * len)`, or zero for a degenerate (coincident) pair.
pub open spec fn relax_adj(a: Point, b: Point, rest: int) -> (int, int) {
    let delta = sub_s(b.pos, a.pos);
    let len = norm_s(delta);
    if len == 0 {
        (0, 0)
    } else {
        (tdiv(delta.x * (len - rest), 2 * len), tdiv(delta.y * (len - rest), 2 * len))
    }
}

/// One relaxation pass over a single pair: each unpinned endpoint moves
/// by the adjustment, in opposite directions, so the pair's length moves
/// toward `rest` while a fully unpinned pair keeps its midpoint.
pub open spec fn relax_pair_s(a: Point, b: Point, rest: int) -> (Point, Point) {
    let (adjx, adjy) = relax_adj(a, b, rest);
    let a2 = if a.pinned {
        a
    } else {
        Point {
            pos: Vec2 { x: clip(a.pos.x + adjx) as i64, y: clip(a.pos.y + adjy) as i64 },
            ..a
        }
    };
    let b2 = if b.pinned {
        b
    } else {
        Point {
            pos: Vec2 { x: clip(b.pos.x - adjx) as i64, y: clip(b.pos.y - adjy) as i64 },
            ..b
        }
    };
    (a2, b2)
}

/// Apply one relaxation pass to the pair `(a, b)`.
pub fn relax_pair(a: Point, b: Point, rest: i64) -> (r: (Point, Point))
    requires
        a.wf(),
        b.wf(),
        0 < rest <= LIMIT,
    ensures
        r == relax_pair_s(a, b, rest as int),
        r.0.wf(),
        r.1.wf(),
{
    let delta = vsub(b.pos, a.pos);
    let len = vnorm(delta);
    if len == 0 {
        (a, b)
    } else {
        proof {
            lemma_norm_bounds(delta);
            assert(-26_000_000_000_000_000_000 <= delta.x * (len - rest)
                <= 26_000_000_000_000_000_000
                && -26_000_000_000_000_000_000 <= delta.y * (len - rest)
                <= 26_000_000_000_000_000_000) by (nonlinear_arith)
                requires
                    -2_000_000_000 <= delta.x <= 2_000_000_000
                        && -2_000_000_000 <= delta.y <= 2_000_000_000
                        && -13_000_000_000 <= len - rest <= 13_000_000_000;
            lemma_tdiv_scale_bound_gen((len - rest) as int, delta.x as int, 2 * len as int);
            lemma_tdiv_scale_bound_gen((len - rest) as int, delta.y as int, 2 * len as int);
        }
        let err: i128 = len as i128 - rest as i128;
        let adjx: i128 = tdiv_i128((delta.x as i128) * err, 2 * (len as i128));
        let adjy: i128 = tdiv_i128((delta.y as i128) * err, 2 * (len as i128));
        let a2 = if a.pinned {
            a
        } else {
            Point {
                pos: Vec2 {
                    x: clip_add(a.pos.x, adjx),
                    y: clip_add(a.pos.y, adjy),
                },
                ..a
            }
        };
        let b2 = if b.pinned {
            b
        } else {
            Point {
                pos: Vec2 {
                    x: clip_sub(b.pos.x, adjx),
                    y: clip_sub(b.pos.y, adjy),
                },
                ..b
            }
        };
        (a2, b2)
    }
}

/// Dividing `l * e` by `2 * l` is dividing `e` by two, for positive `l`.
proof fn lemma_tdiv_half_cancel(l: int, e: int)
    requires
        l > 0,
    ensures
        tdiv(l * e, 2 * l) == tdiv(e, 2),
{
    if e >= 0 {
        assert(l * e >= 0) by (nonlinear_arith)
            requires
                l > 0 && e >= 0;
        vstd::arithmetic::div_mod::lemma_div_denominator(l * e, l, 2);
        vstd::arithmetic::div_mod::lemma_div_multiples_vanish(e, l);
        assert(l * 2 == 2 * l);
    } else {
        let m = -e;
        assert(l * m == -(l * e) && l * m >= 0) by (nonlinear_arith)
            requires
                l > 0 && e < 0 && m == -e;
        vstd::arithmetic::div_mod::lemma_div_denominator(l * m, l, 2);
        vstd::arithmetic::div_mod::lemma_div_multiples_vanish(m, l);
        assert(l * 2 == 2 * l);
        assert(tdiv(l * e, 2 * l) == -((l * m) / (2 * l)));
    }
}

/// Law: a single relaxation pass on a fully unpinned pair in isolation
/// conserves the pair's center of mass. Both endpoints move by the same
/// adjustment in opposite directions, so the componentwise sum of the two
/// positions — hence their midpoint — is unchanged, provided no moved
/// coordinate saturates.
pub proof fn lemma_relaxation_conserves_midpoint(a: Point, b: Point, rest: int)
    requires
        !a.pinned,
        !b.pinned,
        ({
            let (adjx, adjy) = relax_adj(a, b, rest);
            &&& -(LIMIT as int) <= a.pos.x + adjx <= LIMIT as int
            &&& -(LIMIT as int) <= a.pos.y + adjy <= LIMIT as int
            &&& -(LIMIT as int) <= b.pos.x - adjx <= LIMIT as int
            &&& -(LIMIT as int) <= b.pos.y - adjy <= LIMIT as int
        }),
    ensures
        ({
            let (a2, b2) = relax_pair_s(a, b, rest);
            &&& a2.pos.x + b2.pos.x == a.pos.x + b.pos.x
            &&& a2.pos.y + b2.pos.y == a.pos.y + b.pos.y
        }),
{
}

/// Law: for a single constraint with both endpoints unpinned and the pair
/// lying on a horizontal line, one relaxation pass brings the segment
/// length to within one raw unit of the rest length; the absolute length
/// error never grows, and it strictly shrinks whenever it was two raw
/// units or more. Repeated passes therefore converge monotonically to the
/// rest length, up to integer rounding.
pub proof fn lemma_relaxation_converges(a: Point, b: Point, rest: int)
    requires
        !a.pinned,
        !b.pinned,
        a.pos.y == b.pos.y,
        a.pos.x < b.pos.x,
        bounded(a.pos),
        bounded(b.pos),
        0 < rest <= LIMIT,
        ({
            let (adjx, adjy) = relax_adj(a, b, rest);
            &&& -(LIMIT as int) <= a.pos.x + adjx <= LIMIT as int
            &&& -(LIMIT as int) <= b.pos.x - adjx <= LIMIT as int
        }),
    ensures
        ({
            let (a2, b2) = relax_pair_s(a, b, rest);
            let err0 = abs_s(b.pos.x - a.pos.x - rest);
            let err2 = abs_s(b2.pos.x - a2.pos.x - rest);
            &&& a2.pos.y == a.pos.y && b2.pos.y == b.pos.y
            &&& err2 <= 1
            &&& err2 <= err0
            &&& err0 >= 2 ==> err2 < err0
        }),
{
    let ll: int = b.pos.x - a.pos.x;
    let delta = sub_s(b.pos, a.pos);
    assert(delta.x == ll && delta.y == 0);
    assert(delta.y * delta.y == 0 && delta.x * delta.x == ll * ll) by (nonlinear_arith)
        requires
            delta.y == 0 && delta.x == ll;
    lemma_sqrt_square(ll);
    let len = norm_s(delta);
    assert(len == ll);
    let e: int = len - rest;
    lemma_tdiv_half_cancel(ll, e);
    assert(delta.x * (len - rest) == ll * e);
    assert(delta.y * (len - rest) == 0) by (nonlinear_arith)
        requires
            delta.y == 0;
    vstd::arithmetic::div_mod::lemma_div_of0(2 * ll);
    let (adjx, adjy) = relax_adj(a, b, rest);
    assert(adjx == tdiv(e, 2) && adjy == 0);
}

/// The same convergence law for a pair lying on a vertical line.
pub proof fn lemma_relaxation_converges_vertical(a: Point, b: Point, rest: int)
    requires
        !a.pinned,
        !b.pinned,
        a.pos.x == b.pos.x,
        a.pos.y < b.pos.y,
        bounded(a.pos),
        bounded(b.pos),
        0 < rest <= LIMIT,
        ({
            let (adjx, adjy) = relax_adj(a, b, rest);
            &&& -(LIMIT as int) <= a.pos.y + adjy <= LIMIT as int
            &&& -(LIMIT as int) <= b.pos.y - adjy <= LIMIT as int
        }),
    ensures
        ({
            let (a2, b2) = relax_pair_s(a, b, rest);
            let err0 = abs_s(b.pos.y - a.pos.y - rest);
            let err2 = abs_s(b2.pos.y - a2.pos.y - rest);
            &&& a2.pos.x == a.pos.x && b2.pos.x == b.pos.x
            &&& err2 <= 1
            &&& err2 <= err0
            &&& err0 >= 2 ==> err2 < err0
        }),
{
    let ll: int = b.pos.y - a.pos.y;
    let delta = sub_s(b.pos, a.pos);
    assert(delta.y == ll && delta.x == 0);
    assert(delta.x * delta.x == 0 && delta.y * delta.y == ll * ll) by (nonlinear_arith)
        requires
            delta.x == 0 && delta.y == ll;
    lemma_sqrt_square(ll);
    let len = norm_s(delta);
    assert(len == ll);
    let e: int = len - rest;
    lemma_tdiv_half_cancel(ll, e);
    assert(delta.y * (len - rest) == ll * e);
    assert(delta.x * (len - rest) == 0) by (nonlinear_arith)
        requires
            delta.x == 0;
    vstd::arithmetic::div_mod::lemma_div_of0(2 * ll);
    let (adjx, adjy) = relax_adj(a, b, rest);
    assert(adjy == tdiv(e, 2) && adjx == 0);
}

/// Saturating `base + off` for a wide offset.
fn clip_add(base: i64, off: i128) -> (r: i64)
    requires
        -100_000_000_000_000_000_000 <= off <= 100_000_000_000_000_000_000,
    ensures
        r == clip(base + off),
{
    crate::fixed::clip_i128(base as i128 + off)
}

/// Saturating `base - off` for a wide offset.
fn clip_sub(base: i64, off: i128) -> (r: i64)
    requires
        -100_000_000_000_000_000_000 <= off <= 100_000_000_000_000_000_000,
    ensures
        r == clip(base - off),
{
    crate::fixed::clip_i128(base as i128 - off)
}

} // verus!
