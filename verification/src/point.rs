//! A point mass with position history, used as the particle of the cloth.
//!
//! Time integration is the Verlet scheme: the next position is computed
//! from the current and previous positions and the accumulated
//! acceleration, so no velocity needs to be integrated directly. The
//! `vel` field is a derived, clamped estimate kept for the damping force
//! of the next frame.

use vstd::prelude::*;

use crate::fixed::{clip, clip_i128, tdiv, tdiv_i128, LIMIT, UNIT};
use crate::vec2::{Vec2, vec2, bounded, add_s, clamp_len_s, vadd, vclamp_len};
use crate::force_funcs::gravity;

verus! {

/// Fixed time step per frame, in raw units (0.1 world time units).
pub const DT_FX: i64 = 100;

/// The square of the time step, in raw units (`DT_FX * DT_FX / UNIT`).
pub const DT2_FX: i64 = 10;

/// Clamp on the magnitude of the accumulated acceleration, in raw units.
pub const ACC_MAX: i64 = 100_000;

/// Clamp on the magnitude of the stored velocity estimate, in raw units.
pub const VEL_MAX: i64 = 100_000;

#[derive(Clone, Copy, Debug, PartialEq, Eq, Structural)]
pub struct Point {
    pub prev_pos: Vec2,
    pub pos: Vec2,
    pub vel: Vec2,
    pub acc: Vec2,
    pub mass: i64,
    pub pinned: bool,
}

/// `acc` after adding the acceleration induced by force `f` on `p`
/// (the force divided by the mass), saturated into the storable range.
pub open spec fn apply_force_s(p: Point, f: Vec2) -> Point {
    Point {
        acc: Vec2 {
            x: clip(p.acc.x + tdiv(f.x * UNIT, p.mass as int)) as i64,
            y: clip(p.acc.y + tdiv(f.y * UNIT, p.mass as int)) as i64,
        },
        ..p
    }
}

/// Gravity contributes the fixed downward acceleration to every unpinned
/// particle: the gravitational force is the acceleration scaled by the
/// mass, so the induced acceleration is the same for every mass.
pub open spec fn update_s(p: Point) -> Point {
    if p.pinned {
        p
    } else {
        Point { acc: add_s(p.acc, crate::force_funcs::gravity_s()), ..p }
    }
}

/// One Verlet step of an unpinned particle: clamp the accumulated
/// acceleration, step the position from the two stored positions,
/// recompute and clamp the velocity estimate, and reset the accumulator.
/// A pinned particle does not move.
pub open spec fn apply_s(p: Point) -> Point {
    if p.pinned {
        p
    } else {
        let acc_c = clamp_len_s(p.acc, ACC_MAX as int);
        let npx = clip(2 * p.pos.x - p.prev_pos.x + tdiv(acc_c.x * DT2_FX, UNIT as int));
        let npy = clip(2 * p.pos.y - p.prev_pos.y + tdiv(acc_c.y * DT2_FX, UNIT as int));
        let vx = clip(tdiv((npx - p.pos.x) * UNIT, DT_FX as int));
        let vy = clip(tdiv((npy - p.pos.y) * UNIT, DT_FX as int));
        Point {
            prev_pos: p.pos,
            pos: Vec2 { x: npx as i64, y: npy as i64 },
            vel: clamp_len_s(Vec2 { x: vx as i64, y: vy as i64 }, VEL_MAX as int),
            acc: Vec2 { x: 0, y: 0 },
            mass: p.mass,
            pinned: p.pinned,
        }
    }
}

impl Point {
    /// Well-formed particle state: every stored vector is in the
    /// storable coordinate range and the mass is positive.
    pub open spec fn wf(self) -> bool {
        &&& bounded(self.pos)
        &&& bounded(self.prev_pos)
        &&& bounded(self.vel)
        &&& bounded(self.acc)
        &&& 0 < self.mass <= LIMIT
    }

    /// A particle at rest at `(x, y)`: the previous position equals the
    /// position (zero initial velocity) and no force is accumulated.
    pub fn new(x: i64, y: i64, mass: i64, pinned: bool) -> (p: Point)
        requires
            -LIMIT <= x <= LIMIT,
            -LIMIT <= y <= LIMIT,
            0 < mass <= LIMIT,
        ensures
            p == (Point {
                prev_pos: Vec2 { x, y },
                pos: Vec2 { x, y },
                vel: Vec2 { x: 0, y: 0 },
                acc: Vec2 { x: 0, y: 0 },
                mass,
                pinned,
            }),
            p.wf(),
    {
        Point {
            prev_pos: vec2(x, y),
            pos: vec2(x, y),
            vel: vec2(0, 0),
            acc: vec2(0, 0),
            mass,
            pinned,
        }
    }

    /// Accumulate the acceleration induced by `force`.
    pub fn apply_force(&mut self, force: Vec2)
        requires
            old(self).wf(),
        ensures
            *final(self) == apply_force_s(*old(self), force),
            final(self).wf(),
    {
        let ax: i128 = tdiv_i128((force.x as i128) * (UNIT as i128), self.mass as i128);
        let ay: i128 = tdiv_i128((force.y as i128) * (UNIT as i128), self.mass as i128);
        self.acc = Vec2 {
            x: clip_i128(self.acc.x as i128 + ax),
            y: clip_i128(self.acc.y as i128 + ay),
        };
    }

    /// Accumulate gravity; a pinned particle is left untouched.
    pub fn update(&mut self)
        requires
            old(self).wf(),
        ensures
            *final(self) == update_s(*old(self)),
            final(self).wf(),
    {
        if self.pinned {
            return;
        }
        self.acc = vadd(self.acc, gravity());
    }

    /// Perform the Verlet position update for this frame.
    pub fn apply(&mut self)
        requires
            old(self).wf(),
        ensures
            *final(self) == apply_s(*old(self)),
            final(self).wf(),
    {
        if self.pinned {
            return;
        }
        let acc_c = vclamp_len(self.acc, ACC_MAX);
        let dx: i128 = tdiv_i128((acc_c.x as i128) * (DT2_FX as i128), UNIT as i128);
        let dy: i128 = tdiv_i128((acc_c.y as i128) * (DT2_FX as i128), UNIT as i128);
        let npx: i64 = clip_i128(2 * (self.pos.x as i128) - (self.prev_pos.x as i128) + dx);
        let npy: i64 = clip_i128(2 * (self.pos.y as i128) - (self.prev_pos.y as i128) + dy);
        let vx: i64 = clip_i128(tdiv_i128(
            ((npx as i128) - (self.pos.x as i128)) * (UNIT as i128),
            DT_FX as i128,
        ));
        let vy: i64 = clip_i128(tdiv_i128(
            ((npy as i128) - (self.pos.y as i128)) * (UNIT as i128),
            DT_FX as i128,
        ));
        self.prev_pos = self.pos;
        self.pos = Vec2 { x: npx, y: npy };
        self.vel = vclamp_len(Vec2 { x: vx, y: vy }, VEL_MAX);
        self.acc = vec2(0, 0);
    }
}

} // verus!
