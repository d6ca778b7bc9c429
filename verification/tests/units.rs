//! Unit tests for the geometric query, the force functions and the
//! per-particle integration step, with exact fixed-point values.

use cloth_sim::cloth::distance_to_segment;
use cloth_sim::force_funcs::{damping_force, gravity, hookes_law};
use cloth_sim::point::Point;
use cloth_sim::stick::Stick;
use cloth_sim::vec2::vec2;

const U: i64 = 1000;

#[test]
fn distance_perpendicular_to_segment() {
    // Query (5, 2) against the segment (0,0)-(10,0): perpendicular
    // distance 2.
    let d = distance_to_segment(vec2(5 * U, 2 * U), vec2(0, 0), vec2(10 * U, 0));
    assert_eq!(d, 2 * U);
    let d = distance_to_segment(vec2(5 * U, 10 * U), vec2(0, 0), vec2(10 * U, 0));
    assert_eq!(d, 10 * U);
}

#[test]
fn distance_zero_at_endpoints() {
    let a = vec2(3 * U, 4 * U);
    let b = vec2(-2 * U, 7 * U);
    assert_eq!(distance_to_segment(a, a, b), 0);
    assert_eq!(distance_to_segment(b, a, b), 0);
}

#[test]
fn distance_beyond_end_measures_to_nearer_endpoint() {
    // (15, 0) lies beyond the far end of (0,0)-(10,0): the distance is
    // to the endpoint (5 units), not to the infinite line (0 units).
    let d = distance_to_segment(vec2(15 * U, 0), vec2(0, 0), vec2(10 * U, 0));
    assert_eq!(d, 5 * U);
    // And symmetrically before the near end.
    let d = distance_to_segment(vec2(-4 * U, 0), vec2(0, 0), vec2(10 * U, 0));
    assert_eq!(d, 4 * U);
}

#[test]
fn distance_to_degenerate_segment() {
    // Both endpoints coincide: the distance is to that point (3-4-5
    // triangle).
    let d = distance_to_segment(vec2(3 * U, 4 * U), vec2(0, 0), vec2(0, 0));
    assert_eq!(d, 5 * U);
}

#[test]
fn gravity_points_down() {
    let g = gravity();
    assert_eq!(g.x, 0);
    assert_eq!(g.y, 9810);
}

#[test]
fn hookes_law_pulls_stretched_pair_together() {
    // p1 at the origin, p2 twenty units to the right, rest length ten:
    // the force on p1 points toward p2 with magnitude 30 * error.
    let p1 = Point::new(0, 0, U, false);
    let p2 = Point::new(20 * U, 0, U, false);
    let f = hookes_law(&p1, &p2, 10 * U);
    assert_eq!(f.x, 300 * U);
    assert_eq!(f.y, 0);
}

#[test]
fn hookes_law_pushes_compressed_pair_apart() {
    let p1 = Point::new(0, 0, U, false);
    let p2 = Point::new(5 * U, 0, U, false);
    let f = hookes_law(&p1, &p2, 10 * U);
    assert_eq!(f.x, -150 * U);
    assert_eq!(f.y, 0);
}

#[test]
fn hookes_law_zero_at_rest_and_for_coincident_pair() {
    let p1 = Point::new(0, 0, U, false);
    let p2 = Point::new(10 * U, 0, U, false);
    assert_eq!(hookes_law(&p1, &p2, 10 * U), vec2(0, 0));
    let p3 = Point::new(0, 0, U, false);
    assert_eq!(hookes_law(&p1, &p3, 10 * U), vec2(0, 0));
}

#[test]
fn damping_opposes_velocity() {
    let mut p = Point::new(0, 0, U, false);
    p.vel = vec2(1000, -500);
    let f = damping_force(&p);
    assert_eq!(f.x, -100);
    assert_eq!(f.y, 50);
}

#[test]
fn verlet_step_under_gravity() {
    // One step of a resting particle under gravity alone: with time
    // step 0.1, the position advances by g * dt * dt = 0.0981 world
    // units (98 raw) and the velocity estimate becomes 0.98 (980 raw).
    let mut p = Point::new(0, 0, U, false);
    p.update();
    assert_eq!(p.acc, vec2(0, 9810));
    p.apply();
    assert_eq!(p.pos, vec2(0, 98));
    assert_eq!(p.prev_pos, vec2(0, 0));
    assert_eq!(p.vel, vec2(0, 980));
    assert_eq!(p.acc, vec2(0, 0));
}

#[test]
fn pinned_particle_ignores_forces() {
    let mut p = Point::new(7 * U, 8 * U, U, true);
    p.update();
    assert_eq!(p.acc, vec2(0, 0));
    p.apply();
    assert_eq!(p.pos, vec2(7 * U, 8 * U));
    assert_eq!(p.prev_pos, vec2(7 * U, 8 * U));
}

#[test]
fn apply_force_divides_by_mass() {
    let mut p = Point::new(0, 0, 2 * U, false);
    p.apply_force(vec2(1000, -3000));
    assert_eq!(p.acc, vec2(500, -1500));
}

#[test]
fn stick_update_accumulates_spring_force() {
    let mut points = vec![Point::new(0, 0, U, false), Point::new(20 * U, 0, U, false)];
    let st = Stick { p1_idx: (0, 0), p2_idx: (1, 0), rest_length: 10 * U };
    st.update(&mut points, 2, 1);
    // The stretched pair is pulled together, symmetrically; positions
    // themselves are untouched by the force pass.
    assert_eq!(points[0].acc.x, 300 * U);
    assert_eq!(points[1].acc.x, -300 * U);
    assert_eq!(points[0].pos.x, 0);
    assert_eq!(points[1].pos.x, 20 * U);
}

#[test]
fn stick_endpoint_queries() {
    let st = Stick { p1_idx: (1, 2), p2_idx: (1, 3), rest_length: 10 * U };
    assert!(st.involves_point(1, 2));
    assert!(st.involves_point(1, 3));
    assert!(!st.involves_point(2, 1));
    assert_eq!(st.other_point(1, 2), (1, 3));
    assert_eq!(st.other_point(1, 3), (1, 2));
}
