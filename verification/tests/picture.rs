use asteroids::config::Config;
use asteroids::entity::{Asteroid, Bullet, Explosion};
use asteroids::fixed::{HALF_PI, ONE};
use asteroids::game::Game;
use asteroids::input::KEY_UP;
use asteroids::math::Vec2D;
use asteroids::render_path::{
    calculate_wrap, draw, draw_object, draw_points, draw_points_wrapping, render_asteroid,
    render_bullet, render_explosion, render_game, render_lives, render_score, render_ship,
    translate,
};
use asteroids::rng::new_rng;

fn v(x: i64, y: i64) -> Vec2D {
    Vec2D { x: x * ONE, y: y * ONE }
}

fn wide() -> Config {
    Config { field_size: v(2000, 1000), ..Config::default() }
}

fn game() -> Game {
    Game::new(wide(), new_rng(&vec![1; 32]).unwrap()).unwrap()
}

const LIFE: &str = "M40.00 30.00 L30.00 70.00 L35.00 66.00 L45.00 66.00 L50.00 70.00 L40.00 30.00 ";
const SHIP: &str =
    "M1020.00 500.00 L980.00 490.00 L984.00 495.00 L984.00 505.00 L980.00 510.00 L1020.00 500.00 ";
const FLARE: &str = "M984.00 503.00 L976.00 500.00 L984.00 497.00 ";
const ZERO: &str = "M1210.00 50.00 L1220.00 60.00 L1220.00 70.00 L1210.00 80.00 L1200.00 70.00 \
                    L1200.00 60.00 L1210.00 50.00 ";

#[test]
fn numbers_are_written_with_two_decimals() {
    let mut buf = String::new();
    draw(&mut buf, false, &Vec2D { x: ONE, y: 5 * ONE / 2 });
    assert_eq!(buf, "M1.00 2.50 ");
    draw(&mut buf, true, &Vec2D { x: -ONE / 2, y: 1234 * ONE + 655 });
    assert_eq!(buf, "M1.00 2.50 L-0.50 1234.01 ");
}

#[test]
fn numbers_are_rounded_to_the_nearest_hundredth() {
    let mut buf = String::new();
    draw(&mut buf, false, &Vec2D { x: 4 * ONE - 1, y: -4 * ONE + 1 });
    assert_eq!(buf, "M4.00 -4.00 ");
    buf.clear();
    draw(&mut buf, false, &Vec2D { x: -1, y: 1 });
    assert_eq!(buf, "M-0.00 0.00 ");
    buf.clear();
    draw(&mut buf, true, &Vec2D { x: 656, y: -656 });
    assert_eq!(buf, "L0.01 -0.01 ");
    buf.clear();
    draw(&mut buf, true, &Vec2D { x: 327, y: 328 });
    assert_eq!(buf, "L0.00 0.01 ");
    buf.clear();
    // half way between two hundredths: to the even one
    draw(&mut buf, true, &Vec2D { x: 8192, y: 24576 });
    assert_eq!(buf, "L0.12 0.38 ");
    buf.clear();
    draw(&mut buf, true, &Vec2D { x: -8192, y: -24576 });
    assert_eq!(buf, "L-0.12 -0.38 ");
    buf.clear();
    draw(&mut buf, true, &Vec2D { x: i64::MAX, y: i64::MIN });
    assert_eq!(buf, "L140737488355328.00 -140737488355328.00 ");
}

#[test]
fn numbers_are_written_as_floating_point_numbers_are() {
    let mut state: u64 = 5;
    for round in 0..20000 {
        state = state.wrapping_mul(6364136223846793005).wrapping_add(1442695040888963407);
        let bits = 1 + (round % 52);
        let size = ((state >> 5) % (1u64 << bits)) as i64;
        let v = if state & 1 == 0 { size } else { -size };
        let mut buf = String::new();
        draw(&mut buf, false, &Vec2D { x: v, y: 8192 * (round as i64 - 10000) });
        let x = v as f64 / 65536.0;
        let y = (8192 * (round as i64 - 10000)) as f64 / 65536.0;
        let x = if v == 0 { 0.0 } else { x };
        assert_eq!(buf, format!("M{:.2} {:.2} ", x, y));
    }
}

#[test]
fn polyline_moves_first_and_then_draws_lines() {
    let mut buf = String::from("x");
    draw_points(&mut buf, &vec![v(0, 0), v(1, 1), v(2, 0)]);
    assert_eq!(buf, "xM0.00 0.00 L1.00 1.00 L2.00 0.00 ");
    let mut empty = String::new();
    draw_points(&mut empty, &vec![]);
    assert_eq!(empty, "");
}

#[test]
fn wrap_is_decided_by_the_first_point_outside() {
    let field = v(10, 10);
    assert_eq!(calculate_wrap(&vec![v(1, 1), v(9, 9)], &field, true), 0);
    assert_eq!(calculate_wrap(&vec![v(1, 1), v(10, 9)], &field, true), -1);
    assert_eq!(calculate_wrap(&vec![v(1, 1), v(10, 9)], &field, false), 0);
    assert_eq!(calculate_wrap(&vec![v(1, -1), v(10, 12)], &field, false), 1);
    assert_eq!(calculate_wrap(&vec![v(11, 12), v(-1, -1)], &field, true), -1);
    assert_eq!(calculate_wrap(&vec![], &field, true), 0);
}

#[test]
fn translation_shifts_every_point() {
    assert_eq!(translate(&vec![v(1, 2), v(-3, 4)], &v(10, -10)), vec![v(11, -8), v(7, -6)]);
}

#[test]
fn polyline_outside_the_field_is_drawn_on_both_sides() {
    let field = v(10, 10);
    let mut buf = String::new();
    draw_points_wrapping(&mut buf, &vec![v(-1, 5), v(1, 5)], &field);
    assert_eq!(buf, "M9.00 5.00 L11.00 5.00 M-1.00 5.00 L1.00 5.00 ");
    buf.clear();
    draw_points_wrapping(&mut buf, &vec![v(9, 9), v(11, 11)], &field);
    assert_eq!(
        buf,
        "M-1.00 -1.00 L1.00 1.00 M-1.00 9.00 L1.00 11.00 M9.00 -1.00 L11.00 1.00 M9.00 9.00 L11.00 11.00 "
    );
    buf.clear();
    draw_points_wrapping(&mut buf, &vec![v(1, 9), v(1, 11)], &field);
    assert_eq!(buf, "M1.00 -1.00 L1.00 1.00 M1.00 9.00 L1.00 11.00 ");
    buf.clear();
    draw_points_wrapping(&mut buf, &vec![v(1, 1), v(2, 2)], &field);
    assert_eq!(buf, "M1.00 1.00 L2.00 2.00 ");
}

#[test]
fn outline_is_scaled_turned_and_moved() {
    let mut buf = String::new();
    draw_object(&mut buf, &vec![v(1, 0), v(0, 2)], 3 * ONE, HALF_PI, &v(100, 100), &v(800, 600));
    assert_eq!(buf, "M100.00 103.00 L94.00 100.00 ");
}

#[test]
fn ship_and_flame() {
    let mut game = game();
    let mut buf = String::new();
    render_ship(&mut buf, &game);
    assert_eq!(buf, SHIP);
    game.inputs.key_down(KEY_UP);
    buf.clear();
    render_ship(&mut buf, &game);
    assert_eq!(buf, format!("{}{}", SHIP, FLARE));
    game.inputs.key_up(KEY_UP);
    game.inputs.key_down(40);
    buf.clear();
    render_ship(&mut buf, &game);
    assert_eq!(buf, format!("{}{}", SHIP, FLARE));
    game.ship.dead = true;
    buf.clear();
    render_ship(&mut buf, &game);
    assert_eq!(buf, "");
}

#[test]
fn bullet_is_a_stroke_along_its_flight() {
    let field = v(800, 600);
    let mut buf = String::new();
    render_bullet(&mut buf, &Bullet { pos: v(10, 10), speed: v(0, -300), born: 0 }, &field);
    assert_eq!(buf, "M10.00 10.00 L10.00 5.00 ");
    buf.clear();
    render_bullet(&mut buf, &Bullet { pos: v(10, 10), speed: v(0, 0), born: 0 }, &field);
    assert_eq!(buf, "M10.00 10.00 L10.00 10.00 ");
    buf.clear();
    render_bullet(&mut buf, &Bullet { pos: v(798, 10), speed: v(30, 40), born: 0 }, &field);
    assert_eq!(buf, "M-2.00 10.00 L1.00 14.00 M798.00 10.00 L801.00 14.00 ");
}

#[test]
fn asteroid_is_a_closed_polygon() {
    let field = v(800, 600);
    let mut buf = String::new();
    let square = Asteroid { pos: v(100, 100), speed: v(0, 0), angle: 0, spin: 0, size: 10 * ONE, style: 4 };
    render_asteroid(&mut buf, &square, &field);
    assert_eq!(
        buf,
        "M110.00 100.00 L100.00 110.00 L90.00 100.00 L100.00 90.00 L110.00 100.00 "
    );
}

#[test]
fn lives_are_ships_in_a_row() {
    let field = v(2000, 1000);
    let mut buf = String::new();
    render_lives(&mut buf, 0, &field);
    assert_eq!(buf, "");
    render_lives(&mut buf, 1, &field);
    assert_eq!(buf, LIFE);
    buf.clear();
    render_lives(&mut buf, 3, &field);
    assert_eq!(buf.matches('M').count(), 3);
    assert!(buf.starts_with(LIFE));
    assert!(buf.ends_with("M120.00 30.00 L110.00 70.00 L115.00 66.00 L125.00 66.00 L130.00 70.00 L120.00 30.00 "));
}

#[test]
fn explosion_has_eleven_sparks_that_move_outward() {
    let field = v(800, 600);
    let explosion = Explosion { pos: v(400, 300), start_tick: 10, lifetime: 40 };
    let mut start = String::new();
    render_explosion(&mut start, &explosion, 10, &field);
    assert_eq!(start.matches('M').count(), 11);
    assert_eq!(start.matches('L').count(), 11);
    assert!(start.starts_with("M400.00 300.00 L410.00 300.00 "));
    let mut half = String::new();
    render_explosion(&mut half, &explosion, 25, &field);
    assert!(half.starts_with("M415.00 300.00 L430.00 300.00 "));
    let mut end = String::new();
    render_explosion(&mut end, &explosion, 40, &field);
    assert!(end.starts_with("M430.00 300.00 L450.00 300.00 "));
    let mut late = String::new();
    render_explosion(&mut late, &explosion, 4000, &field);
    assert_eq!(late, end);
    let mut early = String::new();
    render_explosion(&mut early, &explosion, 3, &field);
    assert_eq!(early, start);
}

#[test]
fn score_is_written_in_strokes() {
    let field = v(2000, 1000);
    let mut buf = String::new();
    render_score(&mut buf, 0, &field);
    assert_eq!(buf, ZERO);
    buf.clear();
    render_score(&mut buf, 42, &field);
    assert_eq!(
        buf,
        "M1200.00 60.00 L1210.00 50.00 L1220.00 60.00 L1200.00 80.00 L1220.00 80.00 \
         M1180.00 50.00 L1170.00 70.00 L1190.00 70.00 L1190.00 50.00 L1190.00 80.00 "
    );
    buf.clear();
    render_score(&mut buf, u64::MAX, &field);
    assert_eq!(buf.matches('M').count(), 20);
    buf.clear();
    render_score(&mut buf, 1234567890, &field);
    assert_eq!(buf.matches('M').count(), 10);
    // the lowest digit comes first: a zero
    assert!(buf.starts_with(ZERO));
}

#[test]
fn every_digit_has_its_stroke() {
    let field = v(2000, 1000);
    let points = [7, 3, 5, 6, 5, 7, 8, 3, 9, 8];
    for digit in 0..10u64 {
        let mut buf = String::new();
        render_score(&mut buf, digit, &field);
        assert_eq!(buf.matches('M').count(), 1);
        assert_eq!(buf.matches('L').count(), points[digit as usize] - 1);
    }
    let mut seven = String::new();
    render_score(&mut seven, 7, &field);
    assert_eq!(seven, "M1200.00 50.00 L1220.00 50.00 L1210.00 80.00 ");
}

#[test]
fn picture_of_a_new_game() {
    let game = game();
    let mut buf = String::from("path: ");
    render_game(&mut buf, &game);
    let mut lives = String::new();
    render_lives(&mut lives, 3, &game.config.field_size);
    assert_eq!(buf, format!("path: {}{}{}", lives, SHIP, ZERO));
}

#[test]
fn picture_holds_every_entity_in_order() {
    let mut game = game();
    game.tick();
    game.bullets.push(Bullet { pos: v(10, 10), speed: v(0, -300), born: 1 });
    game.explosions.push(Explosion::new(v(400, 300), 1));
    game.score = 42;
    let field = game.config.field_size;
    let mut expected = String::new();
    render_lives(&mut expected, game.lives, &field);
    render_ship(&mut expected, &game);
    render_bullet(&mut expected, &game.bullets[0], &field);
    for asteroid in game.asteroids.iter() {
        render_asteroid(&mut expected, asteroid, &field);
    }
    render_explosion(&mut expected, &game.explosions[0], game.tick, &field);
    render_score(&mut expected, 42, &field);
    let mut buf = String::new();
    render_game(&mut buf, &game);
    assert_eq!(buf, expected);
    assert!(buf.contains("M10.00 10.00 L10.00 5.00 "));
    assert_eq!(game.asteroids.len(), 4);
}
