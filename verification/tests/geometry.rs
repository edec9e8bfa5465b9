use asteroids::fixed::ONE;
use asteroids::geom::{closest_triangle_point, test_circle_point, test_circle_triangle};
use asteroids::math::Vec2D;

fn v(x: i64, y: i64) -> Vec2D {
    Vec2D { x: x * ONE, y: y * ONE }
}

fn next(state: &mut u64) -> i64 {
    *state = state.wrapping_mul(6364136223846793005).wrapping_add(1442695040888963407);
    ((*state >> 33) % 2001) as i64 - 1000
}

fn to_f(p: Vec2D) -> (f64, f64) {
    (p.x as f64, p.y as f64)
}

fn distance_to_segment(p: (f64, f64), a: (f64, f64), b: (f64, f64)) -> f64 {
    let (abx, aby) = (b.0 - a.0, b.1 - a.1);
    let squared = abx * abx + aby * aby;
    let t = if squared == 0.0 {
        0.0
    } else {
        (((p.0 - a.0) * abx + (p.1 - a.1) * aby) / squared).clamp(0.0, 1.0)
    };
    let (qx, qy) = (a.0 + t * abx, a.1 + t * aby);
    ((p.0 - qx).powi(2) + (p.1 - qy).powi(2)).sqrt()
}

fn side(a: Vec2D, b: Vec2D, p: Vec2D) -> i128 {
    (b.x - a.x) as i128 * (p.y - a.y) as i128 - (b.y - a.y) as i128 * (p.x - a.x) as i128
}

fn inside_or_on(p: Vec2D, a: Vec2D, b: Vec2D, c: Vec2D) -> bool {
    let (s1, s2, s3) = (side(a, b, p), side(b, c, p), side(c, a, p));
    (s1 >= 0 && s2 >= 0 && s3 >= 0) || (s1 <= 0 && s2 <= 0 && s3 <= 0)
}

fn reference_distance(p: Vec2D, a: Vec2D, b: Vec2D, c: Vec2D) -> f64 {
    if side(a, b, c) != 0 && inside_or_on(p, a, b, c) {
        return 0.0;
    }
    let (pf, af, bf, cf) = (to_f(p), to_f(a), to_f(b), to_f(c));
    distance_to_segment(pf, af, bf)
        .min(distance_to_segment(pf, bf, cf))
        .min(distance_to_segment(pf, cf, af))
}

#[test]
fn closest_point_inside_is_the_point() {
    let p = v(1, 1);
    assert_eq!(closest_triangle_point(p, v(0, 0), v(4, 0), v(0, 4)), p);
    assert_eq!(closest_triangle_point(p, v(0, 0), v(0, 4), v(4, 0)), p);
    let q = Vec2D { x: 1, y: 1 };
    assert_eq!(closest_triangle_point(q, v(0, 0), v(4, 0), v(0, 4)), q);
}

#[test]
fn closest_point_in_the_corner_regions() {
    let (a, b, c) = (v(0, 0), v(4, 0), v(0, 4));
    assert_eq!(closest_triangle_point(v(-1, -1), a, b, c), a);
    assert_eq!(closest_triangle_point(v(6, -1), a, b, c), b);
    assert_eq!(closest_triangle_point(v(-1, 7), a, b, c), c);
    assert_eq!(closest_triangle_point(a, a, b, c), a);
    assert_eq!(closest_triangle_point(b, a, b, c), b);
    assert_eq!(closest_triangle_point(c, a, b, c), c);
}

#[test]
fn closest_point_in_the_edge_regions() {
    let (a, b, c) = (v(0, 0), v(4, 0), v(0, 4));
    assert_eq!(closest_triangle_point(v(2, -3), a, b, c), v(2, 0));
    assert_eq!(closest_triangle_point(v(-3, 1), a, b, c), v(0, 1));
    assert_eq!(closest_triangle_point(v(4, 4), a, b, c), v(2, 2));
    assert_eq!(closest_triangle_point(v(2, 0), a, b, c), v(2, 0));
    assert_eq!(closest_triangle_point(v(2, 2), a, b, c), v(2, 2));
    // the other winding
    assert_eq!(closest_triangle_point(v(2, -3), a, c, b), v(2, 0));
    assert_eq!(closest_triangle_point(v(4, 4), a, c, b), v(2, 2));
}

#[test]
fn closest_point_on_an_edge_is_rounded_toward_its_start() {
    let (a, b, c) = (Vec2D { x: 0, y: 0 }, Vec2D { x: 3, y: 1 }, Vec2D { x: 0, y: 5 });
    // The projection of (2, -2) on the edge from a to b is (1.2, 0.4).
    assert_eq!(closest_triangle_point(Vec2D { x: 2, y: -2 }, a, b, c), Vec2D { x: 1, y: 0 });
}

#[test]
fn closest_point_of_a_degenerate_triangle() {
    let a = v(1, 1);
    assert_eq!(closest_triangle_point(v(5, 5), a, a, a), a);
    // two corners in one place: the triangle is a stroke
    assert_eq!(closest_triangle_point(v(2, 0), v(0, 0), v(0, 0), v(4, 0)), v(2, 0));
    assert_eq!(closest_triangle_point(v(2, 3), v(0, 0), v(0, 0), v(4, 0)), v(2, 0));
    assert_eq!(closest_triangle_point(v(2, 3), v(0, 0), v(4, 0), v(4, 0)), v(2, 0));
    assert_eq!(closest_triangle_point(v(2, 3), v(4, 0), v(0, 0), v(4, 0)), v(2, 0));
    assert_eq!(closest_triangle_point(v(-2, 3), v(0, 0), v(0, 0), v(4, 0)), v(0, 0));
    // three corners in a row
    assert_eq!(closest_triangle_point(v(2, 3), v(0, 0), v(2, 0), v(4, 0)), v(2, 0));
    assert_eq!(closest_triangle_point(v(9, 3), v(0, 0), v(2, 0), v(4, 0)), v(4, 0));
}

#[test]
fn closest_point_at_the_coordinate_limits() {
    let m: i64 = 1 << 40;
    let (a, b, c) = (Vec2D { x: -m, y: -m }, Vec2D { x: m, y: -m }, Vec2D { x: -m, y: m });
    assert_eq!(closest_triangle_point(Vec2D { x: m, y: m }, a, b, c), Vec2D { x: 0, y: 0 });
    assert_eq!(closest_triangle_point(Vec2D { x: 0, y: -m }, a, b, c), Vec2D { x: 0, y: -m });
    assert_eq!(closest_triangle_point(Vec2D { x: -m, y: -m }, a, b, c), a);
}

#[test]
fn closest_point_matches_a_sampled_reference() {
    let mut state: u64 = 0x5eed;
    for _ in 0..4000 {
        let a = v(next(&mut state), next(&mut state));
        let b = v(next(&mut state), next(&mut state));
        let c = v(next(&mut state), next(&mut state));
        let p = v(next(&mut state), next(&mut state));
        let q = closest_triangle_point(p, a, b, c);
        let found = (((p.x - q.x) as f64).powi(2) + ((p.y - q.y) as f64).powi(2)).sqrt();
        let expected = reference_distance(p, a, b, c);
        assert!(
            (found - expected).abs() <= 2.0,
            "p {:?} a {:?} b {:?} c {:?} gives {:?}: {} for {}",
            p,
            a,
            b,
            c,
            q,
            found,
            expected
        );
        if side(a, b, c) != 0 {
            if inside_or_on(p, a, b, c) {
                assert_eq!(q, p);
            } else {
                // outside: the point found lies on the boundary, up to rounding
                let qf = to_f(q);
                let to_boundary = distance_to_segment(qf, to_f(a), to_f(b))
                    .min(distance_to_segment(qf, to_f(b), to_f(c)))
                    .min(distance_to_segment(qf, to_f(c), to_f(a)));
                assert!(to_boundary <= 2.0);
            }
        }
    }
}

#[test]
fn circle_and_point() {
    assert!(test_circle_point(v(0, 0), 5 * ONE, v(3, 4)));
    assert!(!test_circle_point(v(0, 0), 5 * ONE - 1, v(3, 4)));
    assert!(test_circle_point(v(0, 0), -5 * ONE, v(3, 4)));
    assert!(test_circle_point(v(7, 7), 0, v(7, 7)));
    assert!(!test_circle_point(v(7, 7), 0, Vec2D { x: 7 * ONE + 1, y: 7 * ONE }));
    let m: i64 = 1 << 40;
    assert!(test_circle_point(Vec2D { x: -m, y: -m }, i64::MAX, Vec2D { x: m, y: m }));
    assert!(test_circle_point(Vec2D { x: -m, y: -m }, 3 * m, Vec2D { x: m, y: m }));
    assert!(!test_circle_point(Vec2D { x: -m, y: -m }, 2 * m, Vec2D { x: m, y: m }));
}

#[test]
fn circle_and_triangle() {
    let (a, b, c) = (v(0, 0), v(4, 0), v(0, 4));
    // centre inside
    assert!(test_circle_triangle(v(1, 1), 0, a, b, c));
    // touching an edge exactly counts
    assert!(test_circle_triangle(v(2, -3), 3 * ONE, a, b, c));
    assert!(!test_circle_triangle(v(2, -3), 3 * ONE - 1, a, b, c));
    // touching a corner exactly counts
    assert!(test_circle_triangle(v(-3, -4), 5 * ONE, a, b, c));
    assert!(!test_circle_triangle(v(-3, -4), 5 * ONE - 1, a, b, c));
    // far away
    assert!(!test_circle_triangle(v(100, 100), 10 * ONE, a, b, c));
}

#[test]
fn circle_and_triangle_agree_with_a_sampled_reference() {
    let mut state: u64 = 0xc1c1e;
    let mut hits = 0;
    for _ in 0..4000 {
        let a = v(next(&mut state), next(&mut state));
        let b = v(next(&mut state), next(&mut state));
        let c = v(next(&mut state), next(&mut state));
        let p = v(next(&mut state), next(&mut state));
        let radius = (next(&mut state).abs() % 600) * ONE;
        let hit = test_circle_triangle(p, radius, a, b, c);
        let distance = reference_distance(p, a, b, c);
        if distance < radius as f64 - 2.0 {
            assert!(hit);
        }
        if distance > radius as f64 + 2.0 {
            assert!(!hit);
        }
        assert_eq!(hit, test_circle_point(p, radius, closest_triangle_point(p, a, b, c)));
        if hit {
            hits += 1;
        }
    }
    assert!(hits > 100 && hits < 3900);
}
