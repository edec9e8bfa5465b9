use asteroids::config::{Config, SPEED_MAX};
use asteroids::entity::{
    Asteroid, Bullet, Explosion, EXPLOSION_TICKS, SCORE_PER_SIDE, SPLIT_BOOST, SPLIT_SIZE,
};
use asteroids::fixed::{HALF_PI, ONE, PI, TAU};
use asteroids::math::Vec2D;

fn v(x: i64, y: i64) -> Vec2D {
    Vec2D { x: x * ONE, y: y * ONE }
}

fn rock(size: i64, style: usize) -> Asteroid {
    Asteroid { pos: v(100, 100), speed: v(3, 4), angle: 0, spin: ONE / 2, size, style }
}

#[test]
fn asteroid_near_the_right_edge_wraps_to_the_left() {
    let config = Config::default();
    let mut asteroid = Asteroid {
        pos: Vec2D { x: config.field_size.x - 655, y: 100 * ONE },
        speed: v(60, 0),
        angle: 0,
        spin: 0,
        size: 20 * ONE,
        style: 5,
    };
    asteroid.advance(&config);
    assert_eq!(asteroid.pos, Vec2D { x: 64865, y: 100 * ONE });
    assert!(0 <= asteroid.pos.x && asteroid.pos.x < config.field_size.x);
    let x = asteroid.pos.x as f64 / ONE as f64;
    assert!(x >= 0.0 && x < 1.0);
}

#[test]
fn asteroid_near_the_left_edge_wraps_to_the_right() {
    let config = Config::default();
    let mut asteroid = Asteroid {
        pos: Vec2D { x: 100, y: 0 },
        speed: v(-60, -60),
        angle: 0,
        spin: 0,
        size: 20 * ONE,
        style: 5,
    };
    asteroid.advance(&config);
    assert_eq!(
        asteroid.pos,
        Vec2D { x: config.field_size.x + 100 - 65520, y: config.field_size.y - 65520 }
    );
}

#[test]
fn asteroid_turns_by_its_spin() {
    let config = Config::default();
    let mut asteroid = rock(20 * ONE, 5);
    asteroid.spin = ONE;
    asteroid.advance(&config);
    assert_eq!(asteroid.angle, 1092);
    asteroid.spin = -ONE;
    asteroid.advance(&config);
    asteroid.advance(&config);
    assert_eq!(asteroid.angle, -1092);
    asteroid.angle = 7 * TAU;
    asteroid.spin = 64 * ONE;
    asteroid.advance(&config);
    assert_eq!(asteroid.angle, 7 * TAU + 64 * 1092);
    assert_eq!(asteroid.size, 20 * ONE);
    assert_eq!(asteroid.style, 5);
    assert_eq!(asteroid.speed, v(3, 4));
}

#[test]
fn bullet_moves_and_wraps() {
    let config = Config::default();
    let mut bullet = Bullet { pos: v(799, 599), speed: v(120, 120), born: 7 };
    bullet.advance(&config);
    assert_eq!(bullet.pos, Vec2D { x: 131040 - ONE, y: 131040 - ONE });
    assert_eq!(bullet.speed, v(120, 120));
    assert_eq!(bullet.born, 7);
}

#[test]
fn explosion_ends_after_its_ticks() {
    let explosion = Explosion::new(v(1, 2), 40);
    assert_eq!(explosion, Explosion { pos: v(1, 2), start_tick: 40, lifetime: 40 + EXPLOSION_TICKS });
}

#[test]
fn corners_of_a_square() {
    let asteroid = Asteroid {
        pos: v(100, 100),
        speed: v(0, 0),
        angle: 0,
        spin: 0,
        size: 10 * ONE,
        style: 4,
    };
    assert_eq!(asteroid.vertex(0), v(110, 100));
    assert_eq!(asteroid.vertex(1), v(100, 110));
    assert_eq!(asteroid.vertex(2), v(90, 100));
    assert_eq!(asteroid.vertex(3), v(100, 90));
    assert_eq!(asteroid.vertex(4), v(110, 100));
    let turned = Asteroid { angle: HALF_PI, ..asteroid };
    assert_eq!(turned.vertex(0), v(100, 110));
    assert_eq!(turned.vertex(3), v(110, 100));
}

#[test]
fn corners_stay_within_the_radius() {
    for style in 3..=12usize {
        let mut angle: i64 = 0;
        while angle < TAU {
            let asteroid = Asteroid {
                pos: v(100, 100),
                speed: v(0, 0),
                angle,
                spin: 0,
                size: 37 * ONE + 5,
                style,
            };
            for i in 0..=style {
                let corner = asteroid.vertex(i);
                assert!((corner.x - asteroid.pos.x).abs() <= asteroid.size);
                assert!((corner.y - asteroid.pos.y).abs() <= asteroid.size);
            }
            assert_eq!(asteroid.vertex(0), asteroid.vertex(style));
            angle += 40009;
        }
    }
}

#[test]
fn circle_against_a_polygon() {
    let square = Asteroid {
        pos: v(100, 100),
        speed: v(0, 0),
        angle: 0,
        spin: 0,
        size: 10 * ONE,
        style: 4,
    };
    // the centre, a corner, the middle of an edge
    assert!(square.hit_by_circle(v(100, 100), 0));
    assert!(square.hit_by_circle(v(110, 100), 0));
    assert!(square.hit_by_circle(v(105, 105), 0));
    // beside an edge: the distance to the edge is 10 / sqrt 2 = 7.07
    assert!(!square.hit_by_circle(v(110, 110), 7 * ONE));
    assert!(square.hit_by_circle(v(110, 110), 7 * ONE + ONE / 10));
    // beyond a corner
    assert!(!square.hit_by_circle(v(115, 100), 5 * ONE - 1));
    assert!(square.hit_by_circle(v(115, 100), 5 * ONE));
    assert!(!square.hit_by_circle(v(300, 300), 100 * ONE));
}

#[test]
fn split_of_a_large_asteroid_gives_two_smaller_children() {
    let parent = rock(40 * ONE, 7);
    let children = parent.split(0, HALF_PI as u64);
    assert_eq!(children.len(), 2);
    let fast = 5 * ONE + SPLIT_BOOST;
    assert_eq!(
        children[0],
        Asteroid {
            pos: parent.pos,
            speed: Vec2D { x: fast, y: 0 },
            angle: 0,
            spin: ONE / 2,
            size: 20 * ONE,
            style: 7,
        }
    );
    assert_eq!(
        children[1],
        Asteroid {
            pos: parent.pos,
            speed: Vec2D { x: 0, y: fast },
            angle: 0,
            spin: -ONE / 2,
            size: 20 * ONE,
            style: 7,
        }
    );
}

#[test]
fn split_conserves_mass() {
    let mut size: i64 = SPLIT_SIZE + 1;
    while size <= 256 * ONE {
        let parent = rock(size, 5);
        let children = parent.split(12345 + size as u64, 987654321);
        assert_eq!(children.len(), 2);
        let mut mass: i128 = 0;
        for child in children.iter() {
            assert!(child.size < parent.size);
            assert!(child.size > 0);
            assert_eq!(child.style, parent.style);
            assert_eq!(child.pos, parent.pos);
            assert!(child.speed.x.abs() <= SPEED_MAX && child.speed.y.abs() <= SPEED_MAX);
            mass += (child.size as i128) * (child.size as i128);
        }
        assert!(mass <= (parent.size as i128) * (parent.size as i128));
        size += 300_007;
    }
}

#[test]
fn split_of_a_small_asteroid_gives_nothing() {
    assert_eq!(rock(SPLIT_SIZE, 5).split(1, 2).len(), 0);
    assert_eq!(rock(1, 5).split(1, 2).len(), 0);
    assert_eq!(rock(SPLIT_SIZE + 1, 5).split(1, 2).len(), 2);
}

#[test]
fn children_fly_toward_the_drawn_headings() {
    let parent = rock(40 * ONE, 3);
    let children = parent.split(PI as u64 + 5 * TAU as u64, 3 * HALF_PI as u64);
    let fast = 5 * ONE + SPLIT_BOOST;
    assert_eq!(children[0].speed, Vec2D { x: -fast, y: 0 });
    assert_eq!(children[1].speed, Vec2D { x: 0, y: -fast });
}

#[test]
fn children_of_a_fast_asteroid_are_held_at_the_largest_speed() {
    let mut parent = rock(40 * ONE, 3);
    parent.speed = Vec2D { x: SPEED_MAX, y: SPEED_MAX };
    let children = parent.split(0, 0);
    assert_eq!(children[0].speed, Vec2D { x: SPEED_MAX, y: 0 });
}

#[test]
fn score_per_side() {
    assert_eq!(SCORE_PER_SIDE, 10);
}
