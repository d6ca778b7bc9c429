//! Two-dimensional vectors over fixed-point scalars.
//!
//! Stored simulation state (positions, velocities, accelerations) is kept
//! `bounded`, with each component in `[-LIMIT, LIMIT]`. Intermediate
//! displacement vectors (differences of two bounded vectors, or a point
//! projected onto a segment) may be up to a few times larger; `wide` is the
//! envelope inside which every vector operation here is exact or exactly
//! saturating.

use vstd::prelude::*;

use crate::fixed::{clip, clip_i128, abs_s, is_sqrt, sqrt_s, tdiv, tdiv_i128, isqrt_u128,
    lemma_sqrt_exists, lemma_sqrt_unique, lemma_sqrt_component, lemma_tdiv_scale_bound, LIMIT};

verus! {

#[derive(Clone, Copy, Debug, PartialEq, Eq, Structural)]
pub struct Vec2 {
    pub x: i64,
    pub y: i64,
}

/// Build a vector from its components.
pub fn vec2(x: i64, y: i64) -> (r: Vec2)
    ensures
        r == (Vec2 { x, y }),
{
    Vec2 { x, y }
}

/// Both components lie in the storable coordinate range.
pub open spec fn bounded(v: Vec2) -> bool {
    &&& -(LIMIT as int) <= v.x <= LIMIT as int
    &&& -(LIMIT as int) <= v.y <= LIMIT as int
}

/// The envelope for intermediate vectors (differences, projections).
pub open spec fn wide(v: Vec2) -> bool {
    &&& -8_000_000_000 <= v.x <= 8_000_000_000
    &&& -8_000_000_000 <= v.y <= 8_000_000_000
}

/// Componentwise sum, saturated into the storable range.
pub open spec fn add_s(a: Vec2, b: Vec2) -> Vec2 {
    Vec2 { x: clip(a.x + b.x) as i64, y: clip(a.y + b.y) as i64 }
}

/// Exact componentwise difference (no saturation; exact on `wide` inputs).
pub open spec fn sub_s(a: Vec2, b: Vec2) -> Vec2 {
    Vec2 { x: (a.x - b.x) as i64, y: (a.y - b.y) as i64 }
}

/// Exact componentwise negation.
pub open spec fn neg_s(v: Vec2) -> Vec2 {
    Vec2 { x: (-v.x) as i64, y: (-v.y) as i64 }
}

/// Squared Euclidean length, as a mathematical integer.
pub open spec fn norm_sq(v: Vec2) -> int {
    v.x * v.x + v.y * v.y
}

/// Euclidean length, rounded down to an integer number of raw units.
pub open spec fn norm_s(v: Vec2) -> int {
    sqrt_s(norm_sq(v))
}

/// `v` scaled down onto the disc of radius `m`, if it lies outside it.
pub open spec fn clamp_len_s(v: Vec2, m: int) -> Vec2 {
    let n = norm_s(v);
    if n <= m {
        v
    } else {
        Vec2 { x: tdiv(v.x * m, n) as i64, y: tdiv(v.y * m, n) as i64 }
    }
}

pub fn vadd(a: Vec2, b: Vec2) -> (r: Vec2)
    ensures
        r == add_s(a, b),
        bounded(r),
{
    Vec2 { x: clip_i128(a.x as i128 + b.x as i128), y: clip_i128(a.y as i128 + b.y as i128) }
}

pub fn vsub(a: Vec2, b: Vec2) -> (r: Vec2)
    requires
        wide(a),
        wide(b),
    ensures
        r == sub_s(a, b),
        r.x == a.x - b.x,
        r.y == a.y - b.y,
{
    Vec2 { x: a.x - b.x, y: a.y - b.y }
}

pub fn vneg(v: Vec2) -> (r: Vec2)
    requires
        v.x > i64::MIN,
        v.y > i64::MIN,
    ensures
        r == neg_s(v),
        r.x == -v.x,
        r.y == -v.y,
{
    Vec2 { x: -v.x, y: -v.y }
}

/// The squared length is non-negative, and each component is bounded in
/// magnitude by the length.
pub proof fn lemma_norm_bounds(v: Vec2)
    ensures
        norm_sq(v) >= 0,
        norm_s(v) >= 0,
        abs_s(v.x as int) <= norm_s(v),
        abs_s(v.y as int) <= norm_s(v),
        is_sqrt(norm_sq(v), norm_s(v)),
{
    assert(v.x * v.x >= 0 && v.y * v.y >= 0) by (nonlinear_arith);
    assert(abs_s(v.x as int) * abs_s(v.x as int) <= norm_sq(v) && abs_s(v.y as int) * abs_s(v.y as int) <= norm_sq(v))
        by (nonlinear_arith);
    lemma_sqrt_exists(norm_sq(v));
    lemma_sqrt_component(norm_sq(v), abs_s(v.x as int));
    lemma_sqrt_component(norm_sq(v), abs_s(v.y as int));
}

pub fn vnorm(v: Vec2) -> (r: i64)
    requires
        wide(v),
    ensures
        r == norm_s(v),
        0 <= r <= 12_000_000_000,
{
    proof {
        assert(0 <= v.x * v.x <= 64_000_000_000_000_000_000
            && 0 <= v.y * v.y <= 64_000_000_000_000_000_000) by (nonlinear_arith)
            requires
                wide(v);
    }
    let xx: i128 = (v.x as i128) * (v.x as i128);
    let yy: i128 = (v.y as i128) * (v.y as i128);
    let sq: i128 = xx + yy;
    let r128: u128 = isqrt_u128(sq as u128);
    proof {
        lemma_sqrt_exists(sq as int);
        lemma_sqrt_unique(sq as int, r128 as int, sqrt_s(sq as int));
        assert(r128 <= 12_000_000_000) by (nonlinear_arith)
            requires
                r128 * r128 <= 128_000_000_000_000_000_000 && r128 >= 0;
    }
    r128 as i64
}

/// Clamp the length of `v` to at most `m`, keeping its direction.
pub fn vclamp_len(v: Vec2, m: i64) -> (r: Vec2)
    requires
        bounded(v),
        0 < m <= LIMIT,
    ensures
        r == clamp_len_s(v, m as int),
        bounded(r),
{
    let n = vnorm(v);
    if n <= m {
        v
    } else {
        proof {
            lemma_norm_bounds(v);
            lemma_tdiv_scale_bound(v.x as int, m as int, n as int);
            lemma_tdiv_scale_bound(v.y as int, m as int, n as int);
            assert(-1_000_000_000_000_000_000 <= v.x * m <= 1_000_000_000_000_000_000
                && -1_000_000_000_000_000_000 <= v.y * m <= 1_000_000_000_000_000_000)
                by (nonlinear_arith)
                requires
                    bounded(v) && 0 < m <= LIMIT as int;
        }
        let rx: i128 = tdiv_i128((v.x as i128) * (m as i128), n as i128);
        let ry: i128 = tdiv_i128((v.y as i128) * (m as i128), n as i128);
        Vec2 { x: rx as i64, y: ry as i64 }
    }
}

} // verus!
