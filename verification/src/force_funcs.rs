//! The forces acting on the particles: gravity, the spring force of a
//! distance constraint, and velocity damping.

use vstd::prelude::*;

use crate::fixed::{abs_s, tdiv, tdiv_i128, lemma_tdiv_scale_bound_gen, LIMIT, UNIT};
use crate::vec2::{Vec2, vec2, bounded, sub_s, norm_s, lemma_norm_bounds, vsub, vnorm};
use crate::point::Point;

verus! {

/// Gravitational acceleration, in raw units (9.81 world units, downward
/// along the positive y axis).
pub const GRAVITY_FX: i64 = 9810;

/// Spring constant of the distance constraints (a whole number, so the
/// restoring force is exactly `SPRING` times the length error).
pub const SPRING: i64 = 30;

/// Damping coefficient, in raw units (0.10).
pub const DAMPING_FX: i64 = 100;

/// The gravity vector, as an acceleration.
pub open spec fn gravity_s() -> Vec2 {
    Vec2 { x: 0, y: GRAVITY_FX }
}

/// The spring force on `a` of a constraint toward `b` with rest length
/// `rest`: directed along the displacement `a.pos - b.pos`, with magnitude
/// `SPRING` times the length error, pulling the pair toward `rest`. A
/// zero-length displacement has no defined direction and contributes
/// nothing.
pub open spec fn hookes_s(a: Point, b: Point, rest: int) -> Vec2 {
    let d = sub_s(a.pos, b.pos);
    let len = norm_s(d);
    if len == 0 {
        Vec2 { x: 0, y: 0 }
    } else {
        Vec2 {
            x: tdiv(d.x * (SPRING * (rest - len)), len) as i64,
            y: tdiv(d.y * (SPRING * (rest - len)), len) as i64,
        }
    }
}

/// The damping force on `p`: proportional to and opposing its stored
/// velocity estimate.
pub open spec fn damping_s(p: Point) -> Vec2 {
    Vec2 {
        x: tdiv(p.vel.x * -(DAMPING_FX as int), UNIT as int) as i64,
        y: tdiv(p.vel.y * -(DAMPING_FX as int), UNIT as int) as i64,
    }
}

/// The gravity vector.
pub fn gravity() -> (r: Vec2)
    ensures
        r == gravity_s(),
{
    vec2(0, GRAVITY_FX)
}

/// Hooke's law restoring force between two particles.
pub fn hookes_law(p1: &Point, p2: &Point, rest_length: i64) -> (f: Vec2)
    requires
        p1.wf(),
        p2.wf(),
        0 <= rest_length <= LIMIT,
    ensures
        f == hookes_s(*p1, *p2, rest_length as int),
        abs_s(f.x as int) <= 30 * (LIMIT as int) * 13,
        abs_s(f.y as int) <= 30 * (LIMIT as int) * 13,
{
    let d = vsub(p1.pos, p2.pos);
    let len = vnorm(d);
    if len == 0 {
        vec2(0, 0)
    } else {
        let mag: i128 = (SPRING as i128) * (rest_length as i128 - len as i128);
        proof {
            lemma_norm_bounds(d);
            assert(-800_000_000_000_000_000_000 <= d.x * mag <= 800_000_000_000_000_000_000
                && -800_000_000_000_000_000_000 <= d.y * mag <= 800_000_000_000_000_000_000)
                by (nonlinear_arith)
                requires
                    -2_000_000_000 <= d.x <= 2_000_000_000
                        && -2_000_000_000 <= d.y <= 2_000_000_000
                        && -400_000_000_000 <= mag <= 400_000_000_000;
            lemma_tdiv_scale_bound_gen(mag as int, d.x as int, len as int);
            lemma_tdiv_scale_bound_gen(mag as int, d.y as int, len as int);
        }
        let fx: i128 = tdiv_i128((d.x as i128) * mag, len as i128);
        let fy: i128 = tdiv_i128((d.y as i128) * mag, len as i128);
        Vec2 { x: fx as i64, y: fy as i64 }
    }
}

/// Damping force opposing the particle's stored velocity estimate.
pub fn damping_force(point: &Point) -> (r: Vec2)
    requires
        bounded(point.vel),
    ensures
        r == damping_s(*point),
{
    proof {
        assert(-100_000_000_000 <= point.vel.x * (-(DAMPING_FX as int)) <= 100_000_000_000
            && -100_000_000_000 <= point.vel.y * (-(DAMPING_FX as int)) <= 100_000_000_000)
            by (nonlinear_arith)
            requires
                bounded(point.vel);
    }
    let rx: i128 = tdiv_i128((point.vel.x as i128) * (-(DAMPING_FX as i128)), UNIT as i128);
    let ry: i128 = tdiv_i128((point.vel.y as i128) * (-(DAMPING_FX as i128)), UNIT as i128);
    Vec2 { x: rx as i64, y: ry as i64 }
}

} // verus!
