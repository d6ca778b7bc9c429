//! End-to-end scenarios over the simulation core. All coordinates are
//! raw fixed-point units: 1000 raw units = 1 world unit.

use cloth_sim::cloth::Cloth;
use cloth_sim::point::Point;
use cloth_sim::stick::relax_pair;
use cloth_sim::vec2::vec2;

const U: i64 = 1000;

fn grid(width: usize, height: usize, spacing_world: i64) -> Cloth {
    Cloth::new(width, height, spacing_world * U, vec2(0, 0))
}

#[test]
fn grid_construction_layout() {
    let c = grid(3, 3, 10);
    assert_eq!(c.width, 3);
    assert_eq!(c.height, 3);
    assert_eq!(c.points.len(), 9);
    // A 3x3 lattice has 2 * 9 - 3 - 3 = 12 horizontal + vertical links.
    assert_eq!(c.sticks.len(), 12);
    for y in 0..3usize {
        for x in 0..3usize {
            let p = c.points[y * 3 + x];
            assert_eq!(p.pos.x, x as i64 * 10 * U);
            assert_eq!(p.pos.y, y as i64 * 10 * U);
            assert_eq!(p.prev_pos, p.pos);
            assert_eq!(p.vel, vec2(0, 0));
            assert_eq!(p.acc, vec2(0, 0));
            assert_eq!(p.mass, U);
            // Pinned exactly on even columns of the top row.
            assert_eq!(p.pinned, y == 0 && x % 2 == 0);
        }
    }
    for st in &c.sticks {
        assert_eq!(st.rest_length, 10 * U);
        assert_ne!(st.p1_idx, st.p2_idx);
    }
}

#[test]
fn scenario_step_moves_free_top_particle_down() {
    // 3x3 grid, spacing 10, origin (0, 0): the top corners are pinned,
    // the top middle is not. One step under gravity moves the middle
    // down (y grows) while the pinned corners stay bit-identical.
    let mut c = grid(3, 3, 10);
    let pinned_left = c.points[0];
    let pinned_right = c.points[2];
    c.update();
    let mid = c.points[1];
    assert!(mid.pos.y > 0);
    let left = c.points[0];
    let right = c.points[2];
    assert_eq!(left.pos, pinned_left.pos);
    assert_eq!(left.prev_pos, pinned_left.prev_pos);
    assert_eq!(right.pos, pinned_right.pos);
    assert_eq!(right.prev_pos, pinned_right.prev_pos);
}

#[test]
fn pinned_particles_fixed_over_many_steps() {
    let mut c = grid(4, 3, 15);
    let before: Vec<Point> = c.points.clone();
    for _ in 0..20 {
        c.update();
    }
    for (p0, p1) in before.iter().zip(c.points.iter()) {
        assert_eq!(p1.pinned, p0.pinned);
        if p0.pinned {
            assert_eq!(p1.pos, p0.pos);
            assert_eq!(p1.prev_pos, p0.prev_pos);
        }
    }
}

#[test]
fn scenario_relaxation_converges_to_rest_length() {
    // Two free particles 20 units apart with rest length 10: repeated
    // relaxation-only passes converge to the rest length well within 50
    // passes (here exactly, in a single pass).
    let mut a = Point::new(0, 0, U, false);
    let mut b = Point::new(20 * U, 0, U, false);
    let rest = 10 * U;
    for _ in 0..50 {
        let r = relax_pair(a, b, rest);
        a = r.0;
        b = r.1;
    }
    let dist = b.pos.x - a.pos.x;
    assert!((dist - rest).abs() <= 1, "distance {} not within tolerance of {}", dist, rest);
    assert_eq!(dist, rest);
}

#[test]
fn relaxation_conserves_midpoint_of_free_pair() {
    let a = Point::new(0, 0, U, false);
    let b = Point::new(30 * U, 0, U, false);
    let (a2, b2) = relax_pair(a, b, 10 * U);
    assert_eq!(a2.pos.x + b2.pos.x, a.pos.x + b.pos.x);
    assert_eq!(a2.pos.y + b2.pos.y, a.pos.y + b.pos.y);
    // The pass is symmetric: each endpoint moved by the same amount.
    assert_eq!(a2.pos.x, 10 * U);
    assert_eq!(b2.pos.x, 20 * U);
}

#[test]
fn relaxation_leaves_pinned_endpoint_in_place() {
    let a = Point::new(0, 0, U, true);
    let b = Point::new(20 * U, 0, U, false);
    let (a2, b2) = relax_pair(a, b, 10 * U);
    assert_eq!(a2.pos, a.pos);
    assert_eq!(b2.pos.x, 15 * U);
}

#[test]
fn relaxation_error_shrinks_monotonically_on_odd_lengths() {
    // An odd initial length can never land exactly on the rest length;
    // the error still shrinks to at most one raw unit and never grows.
    let mut a = Point::new(0, 0, U, false);
    let mut b = Point::new(20 * U + 1, 0, U, false);
    let rest = 10 * U;
    let mut prev_err = (b.pos.x - a.pos.x - rest).abs();
    for _ in 0..10 {
        let r = relax_pair(a, b, rest);
        a = r.0;
        b = r.1;
        let err = (b.pos.x - a.pos.x - rest).abs();
        assert!(err <= prev_err);
        prev_err = err;
    }
    assert!(prev_err <= 1);
}

#[test]
fn relaxation_ignores_degenerate_zero_length_pair() {
    let a = Point::new(5 * U, 5 * U, U, false);
    let b = Point::new(5 * U, 5 * U, U, false);
    let (a2, b2) = relax_pair(a, b, 10 * U);
    assert_eq!(a2.pos, a.pos);
    assert_eq!(b2.pos, b.pos);
}

#[test]
fn constraint_count_never_increases_under_cuts() {
    let mut c = grid(3, 3, 10);
    let mut last = c.sticks.len();
    let queries = [(5, 0), (5, 10), (500, 500), (15, 0), (25, 25), (0, 5)];
    for (qx, qy) in queries {
        c.cut_stick(vec2(qx * U, qy * U));
        let n = c.sticks.len();
        assert!(n <= last);
        last = n;
    }
}

#[test]
fn cut_miss_changes_nothing() {
    let mut c = grid(3, 3, 10);
    let sticks_before = c.sticks.clone();
    let points_before = c.points.clone();
    // Far away from every segment: more than 5 units from everything.
    c.cut_stick(vec2(500 * U, 500 * U));
    assert_eq!(c.sticks.len(), sticks_before.len());
    for (s0, s1) in sticks_before.iter().zip(c.sticks.iter()) {
        assert_eq!(s0, s1);
    }
    for (p0, p1) in points_before.iter().zip(c.points.iter()) {
        assert_eq!(p0, p1);
    }
}

#[test]
fn scenario_cut_single_constraint() {
    // A single constraint between (0,0) and (10,0). A query at (5,2) is
    // 2 units away (below the 5-unit threshold): the constraint goes. A
    // query at (5,10) is 10 units away: the constraint stays.
    let mut c = grid(2, 1, 10);
    assert_eq!(c.sticks.len(), 1);
    c.cut_stick(vec2(5 * U, 10 * U));
    assert_eq!(c.sticks.len(), 1);
    c.cut_stick(vec2(5 * U, 2 * U));
    assert_eq!(c.sticks.len(), 0);
    // Cutting leaves the particles themselves alone.
    assert_eq!(c.points[0].pos, vec2(0, 0));
    assert_eq!(c.points[1].pos, vec2(10 * U, 0));
}

#[test]
fn cut_removes_first_match_in_storage_order() {
    // A 3x1 strip has two horizontal constraints; a query equidistant
    // from both removes the one stored first, not a globally nearest.
    let mut c = grid(3, 1, 10);
    assert_eq!(c.sticks.len(), 2);
    assert_eq!(c.sticks[0].p1_idx, (0, 0));
    assert_eq!(c.sticks[1].p1_idx, (1, 0));
    c.cut_stick(vec2(10 * U, 100));
    assert_eq!(c.sticks.len(), 1);
    assert_eq!(c.sticks[0].p1_idx, (1, 0));
}

#[test]
fn at_most_one_constraint_removed_per_cut() {
    let mut c = grid(2, 2, 1);
    // Every segment of this tiny grid is within the 5-unit threshold of
    // the query, yet a single call removes exactly one constraint.
    let before = c.sticks.len();
    c.cut_stick(vec2(U / 2, U / 2));
    assert_eq!(c.sticks.len(), before - 1);
}
