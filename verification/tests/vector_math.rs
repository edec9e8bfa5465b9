use asteroids::fixed::{
    div_trunc, fx_cos, fx_mul, fx_sin, isqrt, isqrt_ceil, rem_floor, HALF_PI, ONE, PI, TAU,
};
use asteroids::math::Vec2D;

fn v(x: i64, y: i64) -> Vec2D {
    Vec2D { x: x * ONE, y: y * ONE }
}

#[test]
fn fixed_product_rounds_toward_zero() {
    assert_eq!(fx_mul(3 * ONE, 4 * ONE), 12 * ONE);
    assert_eq!(fx_mul(3, ONE / 2), 1);
    assert_eq!(fx_mul(-3, ONE / 2), -1);
    assert_eq!(fx_mul(98304, -163840), -245760);
    assert_eq!(fx_mul(1, 1), 0);
    assert_eq!(fx_mul(-1, 1), 0);
}

#[test]
fn truncating_quotient() {
    assert_eq!(div_trunc(7, 2), 3);
    assert_eq!(div_trunc(-7, 2), -3);
    assert_eq!(div_trunc(0, 5), 0);
}

#[test]
fn floor_remainder_is_never_negative() {
    assert_eq!(rem_floor(7, 5), 2);
    assert_eq!(rem_floor(-1, 5), 4);
    assert_eq!(rem_floor(-5, 5), 0);
    assert_eq!(rem_floor(i64::MIN, 7), 6);
}

#[test]
fn integer_square_roots() {
    assert_eq!(isqrt(0), 0);
    assert_eq!(isqrt(1), 1);
    assert_eq!(isqrt(24), 4);
    assert_eq!(isqrt(25), 5);
    assert_eq!(isqrt(26), 5);
    assert_eq!(isqrt(u128::MAX), u64::MAX);
    assert_eq!(isqrt_ceil(25), 5);
    assert_eq!(isqrt_ceil(26), 6);
    assert_eq!(isqrt_ceil(0), 0);
}

#[test]
fn sine_and_cosine_at_the_quarter_turns() {
    assert_eq!(fx_sin(0), 0);
    assert_eq!(fx_sin(HALF_PI), ONE);
    assert_eq!(fx_sin(PI), 0);
    assert_eq!(fx_sin(3 * HALF_PI), -ONE);
    assert_eq!(fx_cos(0), ONE);
    assert_eq!(fx_cos(HALF_PI), 0);
    assert_eq!(fx_cos(PI), -ONE);
    assert_eq!(fx_cos(3 * HALF_PI), 0);
}

#[test]
fn sine_exact_values() {
    assert_eq!(fx_sin(ONE), 55064);
    assert_eq!(fx_cos(ONE), 35389);
    assert_eq!(fx_sin(-ONE), -55064);
    assert_eq!(fx_sin(34315), 32768);
    assert_eq!(fx_cos(2 * ONE), -27314);
}

#[test]
fn sine_has_period_tau() {
    let mut angle: i64 = -3 * TAU;
    while angle < 3 * TAU {
        assert_eq!(fx_sin(angle), fx_sin(angle + TAU));
        assert_eq!(fx_cos(angle), fx_cos(angle - TAU));
        angle += 7919;
    }
}

#[test]
fn sine_is_close_to_the_real_sine() {
    let mut angle: i64 = -TAU;
    while angle < 2 * TAU {
        let radians = std::f64::consts::PI * (angle as f64) / (PI as f64);
        let sine = fx_sin(angle) as f64 / ONE as f64;
        let cosine = fx_cos(angle) as f64 / ONE as f64;
        assert!((sine - radians.sin()).abs() < 0.002, "sine at {}", angle);
        assert!((cosine - radians.cos()).abs() < 0.002, "cosine at {}", angle);
        assert!(fx_sin(angle).abs() <= ONE);
        angle += 1013;
    }
}

#[test]
fn zero_and_one() {
    assert_eq!(Vec2D::zero(), Vec2D { x: 0, y: 0 });
    assert_eq!(Vec2D::one(), Vec2D { x: ONE, y: 0 });
}

#[test]
fn sums_and_differences() {
    assert_eq!(v(1, 2) + v(3, -5), v(4, -3));
    assert_eq!(v(1, 2) - v(3, -5), v(-2, 7));
    let mut a = v(1, 1);
    a.add_assign(v(2, 3));
    assert_eq!(a, v(3, 4));
    a.sub_assign(v(5, 5));
    assert_eq!(a, v(-2, -1));
}

#[test]
fn dot_cross_and_lengths_are_exact() {
    let a = Vec2D { x: 3, y: 4 };
    let b = Vec2D { x: -2, y: 5 };
    assert_eq!(a.dot(b), 14);
    assert_eq!(a.cross(b), 23);
    assert_eq!(b.cross(a), -23);
    assert_eq!(a.len_squared(), 25);
    assert_eq!(a.len(), 5);
    assert_eq!(v(3, 4).len(), 5 * ONE);
    assert_eq!(Vec2D { x: 1, y: 1 }.len(), 1);
    assert_eq!(Vec2D::zero().len(), 0);
    let far = Vec2D { x: 1 << 61, y: -(1 << 61) };
    assert_eq!(far.len_squared(), 1i128 << 123);
    assert_eq!(far.dot(far), 1i128 << 123);
}

#[test]
fn normalize_fails_only_on_the_zero_vector() {
    assert_eq!(Vec2D::zero().normalize(), None);
    assert_eq!(v(3, 4).normalize(), Some(Vec2D { x: 39321, y: 52428 }));
    assert_eq!(Vec2D { x: -5, y: 0 }.normalize(), Some(Vec2D { x: -ONE, y: 0 }));
    assert_eq!(Vec2D { x: 0, y: 1 }.normalize(), Some(Vec2D { x: 0, y: ONE }));
    assert_eq!(Vec2D { x: 1, y: 1 }.normalize(), Some(Vec2D { x: 46341, y: 46341 }));
    assert_eq!(Vec2D { x: -1, y: 2 }.normalize(), Some(Vec2D { x: -29308, y: 58617 }));
}

#[test]
fn normalized_vectors_have_length_one() {
    let one = (ONE as i128) * (ONE as i128);
    let low = ((ONE - 3) as i128) * ((ONE - 3) as i128);
    let high = ((ONE + 1) as i128) * ((ONE + 1) as i128);
    let mut state: u64 = 17;
    for round in 0..20000 {
        state = state.wrapping_mul(6364136223846793005).wrapping_add(1442695040888963407);
        let bits = 1 + (round % 61);
        let x = ((state >> 3) as i64 % (1i64 << bits)) * if state & 1 == 0 { 1 } else { -1 };
        state = state.wrapping_mul(6364136223846793005).wrapping_add(1442695040888963407);
        let y = ((state >> 3) as i64 % (1i64 << bits)) * if state & 1 == 0 { 1 } else { -1 };
        let v = Vec2D { x, y };
        match v.normalize() {
            None => assert!(x == 0 && y == 0),
            Some(u) => {
                let squared = u.len_squared();
                assert!(low <= squared && squared < high, "{:?} gives {:?}", v, u);
                assert!((squared - one).abs() <= 6 * ONE as i128);
                assert!(u.x.signum() * x.signum() >= 0 && u.y.signum() * y.signum() >= 0);
                // the same direction: the cross product is small beside the lengths
                let cross = (u.x as i128) * (y as i128) - (u.y as i128) * (x as i128);
                assert!(cross.abs() <= 4 * ((x.abs() as i128) + (y.abs() as i128)) + 4);
            },
        }
    }
}

#[test]
fn rotation_by_the_matrix() {
    assert_eq!(v(3, 4).rotate(0), v(3, 4));
    assert_eq!(Vec2D::one().rotate(HALF_PI), Vec2D { x: 0, y: ONE });
    assert_eq!(v(3, 4).rotate(PI), v(-3, -4));
    assert_eq!(v(3, 4).rotate(HALF_PI), v(-4, 3));
    assert_eq!(v(3, 4).rotate(-HALF_PI), v(4, -3));
    assert_eq!(v(3, 4).rotate(TAU), v(3, 4));
    assert_eq!(Vec2D::one().rotate(ONE), Vec2D { x: 35389, y: 55064 });
}

#[test]
fn scaling() {
    assert_eq!(v(3, -4).scale(2 * ONE), v(6, -8));
    assert_eq!(v(3, -4).scale(ONE / 2), Vec2D { x: 3 * ONE / 2, y: -2 * ONE });
    assert_eq!(v(3, -4).scale(0), Vec2D::zero());
    assert_eq!(Vec2D { x: 5, y: -5 }.scale(ONE / 2), Vec2D { x: 2, y: -2 });
}

#[test]
fn wrapping_remainder() {
    let field = v(800, 600);
    let mut p = v(-1, 601);
    p.rem_euclid_assign(&field);
    assert_eq!(p, v(799, 1));
    let mut q = v(800, -600);
    q.rem_euclid_assign(&field);
    assert_eq!(q, v(0, 0));
    let mut r = Vec2D { x: -1, y: 600 * ONE - 1 };
    r.rem_euclid_assign(&field);
    assert_eq!(r, Vec2D { x: 800 * ONE - 1, y: 600 * ONE - 1 });
}

#[test]
fn sine_and_cosine_squared_add_up_to_one_within_a_hundredth() {
    let one = (ONE as i128) * (ONE as i128);
    let mut angle: i64 = -5 * TAU;
    while angle < 5 * TAU {
        let s = fx_sin(angle) as i128;
        let c = fx_cos(angle) as i128;
        assert!(198 * one <= 200 * (s * s + c * c));
        assert!(200 * (s * s + c * c) <= 201 * one);
        angle += 37;
    }
}

#[test]
fn rotation_keeps_the_length_within_a_hundredth() {
    let v = Vec2D { x: 300 * ONE, y: -400 * ONE };
    let squared = v.len_squared() as f64;
    let mut angle: i64 = -2 * TAU;
    while angle < 2 * TAU {
        let turned = v.rotate(angle).len_squared() as f64;
        assert!(turned >= 0.989 * squared && turned <= 1.006 * squared);
        angle += 1009;
    }
}
