use asteroids::config::{Config, ConfigError};
use asteroids::entity::{Asteroid, Bullet, Explosion, EXPLOSION_TICKS};
use asteroids::fixed::{HALF_PI, ONE, TAU};
use asteroids::game::{
    Game, BULLET_TICKS, ENTROPY_PER_TICK, FIRE_COOLDOWN, MUZZLE_SPEED, RESPAWN_TICKS,
    START_LIVES, WAVE_MAX,
};
use asteroids::input::{KEY_LEFT, KEY_SPACE, KEY_UP};
use asteroids::math::Vec2D;
use asteroids::rng::new_rng;

fn v(x: i64, y: i64) -> Vec2D {
    Vec2D { x: x * ONE, y: y * ONE }
}

fn seeded(seed: u8) -> Game {
    Game::new(Config::default(), new_rng(&vec![seed; 32]).unwrap()).unwrap()
}

fn still_rock(pos: Vec2D, size: i64, style: usize) -> Asteroid {
    Asteroid { pos, speed: v(0, 0), angle: 0, spin: 0, size, style }
}

fn no_draws() -> Vec<u64> {
    vec![0; ENTROPY_PER_TICK]
}

fn in_field(pos: Vec2D, field: Vec2D) -> bool {
    0 <= pos.x && pos.x < field.x && 0 <= pos.y && pos.y < field.y
}

fn all_in_field(game: &Game) -> bool {
    let field = game.config.field_size;
    in_field(game.ship.pos, field)
        && game.bullets.iter().all(|b| in_field(b.pos, field))
        && game.asteroids.iter().all(|a| in_field(a.pos, field))
        && game.explosions.iter().all(|e| in_field(e.pos, field))
}

#[test]
fn new_game_starts_empty_with_the_ship_in_the_middle() {
    let game = seeded(1);
    assert_eq!(game.tick, 0);
    assert_eq!(game.score, 0);
    assert_eq!(game.lives, START_LIVES);
    assert_eq!(game.ship.pos, v(400, 300));
    assert_eq!(game.ship.speed, v(0, 0));
    assert!(!game.ship.dead);
    assert!(game.bullets.is_empty());
    assert!(game.asteroids.is_empty());
    assert!(game.explosions.is_empty());
    assert_eq!(game.config, Config::default());
    assert!(!game.is_over());
}

#[test]
fn bad_tunables_are_turned_down_when_the_game_is_made() {
    let good = Config::default();
    let cases = vec![
        (Config { field_size: v(0, 600), ..good }, ConfigError::FieldSize),
        (Config { field_size: v(800, -1), ..good }, ConfigError::FieldSize),
        (Config { field_size: v(16385, 600), ..good }, ConfigError::FieldSize),
        (Config { delta_t: 0, ..good }, ConfigError::TimeStep),
        (Config { delta_t: ONE + 1, ..good }, ConfigError::TimeStep),
        (Config { drag: -1, ..good }, ConfigError::Drag),
        (Config { drag: ONE + 1, ..good }, ConfigError::Drag),
        (Config { angular_drag: -1, ..good }, ConfigError::AngularDrag),
        (Config { angular_drag: 17 * ONE, ..good }, ConfigError::AngularDrag),
        (Config { acceleration: -1, ..good }, ConfigError::Acceleration),
        (Config { acceleration: 1025 * ONE, ..good }, ConfigError::Acceleration),
        (Config { angular_accel: -1, ..good }, ConfigError::AngularAccel),
        (Config { angular_accel: 65 * ONE, ..good }, ConfigError::AngularAccel),
        (Config { speed_limit: -1, ..good }, ConfigError::SpeedLimit),
        (Config { speed_limit: 1025 * ONE, ..good }, ConfigError::SpeedLimit),
        (Config { angular_limit: -1, ..good }, ConfigError::AngularLimit),
        (Config { angular_limit: 65 * ONE, ..good }, ConfigError::AngularLimit),
        (Config { delta_t: 0, drag: -1, angular_limit: -1, ..good }, ConfigError::TimeStep),
    ];
    for (config, fault) in cases {
        assert_eq!(config.validate(), Err(fault));
        let made = Game::new(config, new_rng(&vec![0; 32]).unwrap());
        assert_eq!(made.err(), Some(fault));
    }
    assert_eq!(good.validate(), Ok(()));
    let widest = Config {
        drag: ONE,
        angular_drag: 16 * ONE,
        acceleration: 1024 * ONE,
        angular_accel: 64 * ONE,
        speed_limit: 1024 * ONE,
        angular_limit: 64 * ONE,
        delta_t: ONE,
        field_size: v(16384, 16384),
    };
    assert_eq!(widest.validate(), Ok(()));
    let least = Config {
        drag: 0,
        angular_drag: 0,
        acceleration: 0,
        angular_accel: 0,
        speed_limit: 0,
        angular_limit: 0,
        delta_t: 1,
        field_size: Vec2D { x: 1, y: 1 },
    };
    assert_eq!(least.validate(), Ok(()));
}

#[test]
fn tick_counter_moves_on_by_one() {
    let mut game = seeded(2);
    for n in 1..=50u64 {
        game.tick();
        assert_eq!(game.tick, n);
    }
}

#[test]
fn first_tick_sends_the_first_wave() {
    let mut game = seeded(3);
    game.advance(&no_draws());
    assert_eq!(game.wave, 1);
    assert_eq!(game.asteroids.len(), 4);
    for asteroid in game.asteroids.iter() {
        assert_eq!(
            *asteroid,
            Asteroid {
                pos: v(0, 0),
                speed: v(34, 0),
                angle: 0,
                spin: -ONE,
                size: 34 * ONE,
                style: 3,
            }
        );
    }
    game.advance(&no_draws());
    assert_eq!(game.wave, 1);
    assert_eq!(game.asteroids.len(), 4);
    assert_eq!(game.asteroids[0].pos, Vec2D { x: 34 * 1092, y: 0 });
    assert_eq!(game.asteroids[0].angle, -1092);
}

#[test]
fn wave_is_built_from_its_draws() {
    let mut game = seeded(3);
    let mut draws = no_draws();
    // asteroid 1 of the wave reads the draws 35, 36 and 37
    draws[35] = 800 * ONE as u64 + 7;
    draws[36] = HALF_PI as u64;
    draws[37] = 16 * (ONE as u64 + 100) + 9;
    game.advance(&draws);
    assert_eq!(
        game.asteroids[1],
        Asteroid {
            pos: Vec2D { x: 7, y: 0 },
            speed: v(0, 34),
            angle: 0,
            spin: 100,
            size: 34 * ONE,
            style: 8,
        }
    );
    assert_eq!(game.asteroids[0].style, 3);
    assert_eq!(game.asteroids[2].pos, v(0, 0));
}

#[test]
fn later_waves_are_larger_up_to_a_limit() {
    let mut game = seeded(4);
    for wave in 1..=30u64 {
        game.asteroids.clear();
        game.advance(&no_draws());
        assert_eq!(game.wave, wave);
        let count = std::cmp::min(wave as usize + 3, WAVE_MAX);
        assert_eq!(game.asteroids.len(), count);
        let size = std::cmp::min(32 + 2 * wave as i64, 64) * ONE;
        let speed = std::cmp::min(30 + 4 * wave as i64, 120) * ONE;
        assert_eq!(game.asteroids[0].size, size);
        assert_eq!(game.asteroids[0].speed, Vec2D { x: speed, y: 0 });
    }
}

#[test]
fn seeds_decide_the_wave() {
    let mut one = seeded(5);
    let mut same = seeded(5);
    let mut other = seeded(6);
    one.tick();
    same.tick();
    other.tick();
    assert_eq!(one.asteroids, same.asteroids);
    assert_ne!(one.asteroids, other.asteroids);
    let first = one.asteroids[0];
    assert!(one.asteroids.iter().any(|a| *a != first));
}

#[test]
fn every_entity_stays_in_the_field() {
    let mut game = seeded(7);
    let mut state: u64 = 4242;
    for _ in 0..3000 {
        state = state.wrapping_mul(6364136223846793005).wrapping_add(1442695040888963407);
        let key = [KEY_UP, KEY_LEFT, KEY_SPACE, 39, 40][((state >> 40) % 5) as usize];
        if (state >> 60) & 1 == 0 {
            game.inputs.key_down(key);
        } else {
            game.inputs.key_up(key);
        }
        game.tick();
        assert!(all_in_field(&game));
        let limit = (game.config.speed_limit as i128) * (game.config.speed_limit as i128);
        assert!(game.ship.speed.len_squared() <= limit);
        assert!(game.ship.angular_speed.abs() <= game.config.angular_limit);
        for asteroid in game.asteroids.iter() {
            assert!(asteroid.style >= 3);
            assert!(asteroid.size > 0);
        }
    }
}

#[test]
fn score_never_falls_and_lives_never_rise() {
    let mut game = seeded(8);
    game.inputs.key_down(KEY_UP);
    let mut score = game.score;
    let mut lives = game.lives;
    for n in 0..6000 {
        if n % 9 == 0 {
            game.inputs.key_down(KEY_SPACE);
        }
        if n % 9 == 4 {
            game.inputs.key_up(KEY_SPACE);
        }
        game.tick();
        assert!(game.score >= score);
        assert!(game.lives <= lives);
        if lives == 0 {
            assert_eq!(game.lives, 0);
            assert!(game.ship.dead);
        }
        score = game.score;
        lives = game.lives;
    }
}

#[test]
fn same_seed_and_same_events_give_the_same_game() {
    let mut left = seeded(9);
    let mut right = seeded(9);
    let mut state: u64 = 1;
    for _ in 0..2000 {
        state = state.wrapping_mul(6364136223846793005).wrapping_add(1442695040888963407);
        let key = [KEY_UP, KEY_LEFT, KEY_SPACE, 39, 40, 13][((state >> 40) % 6) as usize];
        if (state >> 60) & 1 == 0 {
            left.inputs.key_down(key);
            right.inputs.key_down(key);
        } else {
            left.inputs.key_up(key);
            right.inputs.key_up(key);
        }
        left.tick();
        right.tick();
        assert_eq!(left.tick, right.tick);
        assert_eq!(left.score, right.score);
        assert_eq!(left.lives, right.lives);
        assert_eq!(left.ship, right.ship);
        assert_eq!(left.bullets, right.bullets);
        assert_eq!(left.asteroids, right.asteroids);
        assert_eq!(left.explosions, right.explosions);
        assert_eq!(left.inputs, right.inputs);
        assert_eq!(left.wave, right.wave);
        assert_eq!(left.fire_held, right.fire_held);
        assert_eq!(left.fire_ready_at, right.fire_ready_at);
        assert_eq!(left.respawn_at, right.respawn_at);
    }
}

#[test]
fn same_draws_give_the_same_game_whatever_the_seed() {
    let mut left = seeded(10);
    let mut right = seeded(11);
    let mut state: u64 = 77;
    for n in 0..500 {
        let mut draws = Vec::new();
        for _ in 0..ENTROPY_PER_TICK {
            state = state.wrapping_mul(6364136223846793005).wrapping_add(1442695040888963407);
            draws.push(state);
        }
        if n % 20 == 0 {
            left.inputs.key_down(KEY_SPACE);
            right.inputs.key_down(KEY_SPACE);
        }
        if n % 20 == 10 {
            left.inputs.key_up(KEY_SPACE);
            right.inputs.key_up(KEY_SPACE);
        }
        left.advance(&draws);
        right.advance(&draws);
        assert_eq!(left.ship, right.ship);
        assert_eq!(left.bullets, right.bullets);
        assert_eq!(left.asteroids, right.asteroids);
        assert_eq!(left.explosions, right.explosions);
        assert_eq!(left.score, right.score);
        assert_eq!(left.lives, right.lives);
        assert!(all_in_field(&left));
    }
}

#[test]
fn fire_key_shoots_once_for_each_press() {
    let mut game = seeded(12);
    game.asteroids.push(still_rock(v(100, 100), 20 * ONE, 5));
    game.inputs.key_down(KEY_SPACE);
    game.advance(&no_draws());
    assert_eq!(game.bullets.len(), 1);
    // fired at the ship along its heading, then moved by one step
    assert_eq!(
        game.bullets[0],
        Bullet { pos: Vec2D { x: 400 * ONE + 436800, y: 300 * ONE }, speed: Vec2D { x: MUZZLE_SPEED, y: 0 }, born: 1 }
    );
    assert_eq!(game.fire_ready_at, 1 + FIRE_COOLDOWN);
    // holding the key does not fire again
    for _ in 0..20 {
        game.advance(&no_draws());
    }
    assert_eq!(game.bullets.len(), 1);
    // a new press does
    game.inputs.key_up(KEY_SPACE);
    game.advance(&no_draws());
    game.inputs.key_down(KEY_SPACE);
    game.advance(&no_draws());
    assert_eq!(game.bullets.len(), 2);
    assert_eq!(game.bullets[1].born, 23);
}

#[test]
fn shots_wait_for_the_cooldown() {
    let mut game = seeded(13);
    game.asteroids.push(still_rock(v(100, 100), 20 * ONE, 5));
    game.inputs.key_down(KEY_SPACE);
    game.advance(&no_draws());
    assert_eq!(game.bullets.len(), 1);
    // presses before the cooldown has passed are lost
    for _ in 0..3 {
        game.inputs.key_up(KEY_SPACE);
        game.advance(&no_draws());
        game.inputs.key_down(KEY_SPACE);
        game.advance(&no_draws());
    }
    assert_eq!(game.tick, 7);
    assert_eq!(game.bullets.len(), 1);
    game.inputs.key_up(KEY_SPACE);
    game.advance(&no_draws());
    game.inputs.key_down(KEY_SPACE);
    game.advance(&no_draws());
    assert_eq!(game.tick, 9);
    assert_eq!(game.bullets.len(), 2);
}

#[test]
fn bullets_expire() {
    let mut game = seeded(14);
    game.asteroids.push(still_rock(v(100, 100), 20 * ONE, 5));
    game.bullets.push(Bullet { pos: v(400, 500), speed: v(0, 0), born: 0 });
    for _ in 0..BULLET_TICKS - 1 {
        game.advance(&no_draws());
        assert_eq!(game.bullets.len(), 1);
    }
    game.advance(&no_draws());
    assert!(game.bullets.is_empty());
}

#[test]
fn hit_splits_a_large_asteroid_and_scores() {
    let mut game = seeded(15);
    game.asteroids.push(still_rock(v(100, 100), 40 * ONE, 5));
    game.asteroids.push(still_rock(v(600, 100), 40 * ONE, 7));
    game.bullets.push(Bullet { pos: v(100, 100), speed: v(0, 0), born: 0 });
    game.bullets.push(Bullet { pos: v(300, 500), speed: v(0, 0), born: 0 });
    let mut draws = no_draws();
    draws[0] = 0;
    draws[1] = HALF_PI as u64;
    game.advance(&draws);
    assert_eq!(game.score, 50);
    assert_eq!(game.bullets, vec![Bullet { pos: v(300, 500), speed: v(0, 0), born: 0 }]);
    assert_eq!(
        game.asteroids,
        vec![
            still_rock(v(600, 100), 40 * ONE, 7),
            Asteroid { speed: v(10, 0), ..still_rock(v(100, 100), 20 * ONE, 5) },
            Asteroid { speed: v(0, 10), ..still_rock(v(100, 100), 20 * ONE, 5) },
        ]
    );
    assert_eq!(
        game.explosions,
        vec![Explosion { pos: v(100, 100), start_tick: 1, lifetime: 1 + EXPLOSION_TICKS }]
    );
    assert_eq!(game.lives, START_LIVES);
}

#[test]
fn second_bullet_reads_its_own_draws() {
    let mut game = seeded(15);
    game.asteroids.push(still_rock(v(100, 100), 40 * ONE, 5));
    game.bullets.push(Bullet { pos: v(300, 500), speed: v(0, 0), born: 0 });
    game.bullets.push(Bullet { pos: v(100, 100), speed: v(0, 0), born: 0 });
    let mut draws = no_draws();
    draws[2] = 3 * HALF_PI as u64;
    draws[3] = 2 * HALF_PI as u64;
    game.advance(&draws);
    assert_eq!(game.asteroids[0].speed, v(0, -10));
    assert_eq!(game.asteroids[1].speed, v(-10, 0));
}

#[test]
fn hit_destroys_a_small_asteroid() {
    let mut game = seeded(16);
    game.asteroids.push(still_rock(v(100, 100), 15 * ONE, 12));
    game.asteroids.push(still_rock(v(600, 100), 15 * ONE, 3));
    game.bullets.push(Bullet { pos: v(101, 101), speed: v(0, 0), born: 0 });
    game.advance(&no_draws());
    assert_eq!(game.score, 120);
    assert!(game.bullets.is_empty());
    assert_eq!(game.asteroids, vec![still_rock(v(600, 100), 15 * ONE, 3)]);
    assert_eq!(game.explosions.len(), 1);
    assert_eq!(game.explosions[0].pos, v(101, 101));
}

#[test]
fn one_bullet_hits_one_asteroid() {
    let mut game = seeded(17);
    game.asteroids.push(still_rock(v(100, 100), 15 * ONE, 4));
    game.asteroids.push(still_rock(v(101, 100), 15 * ONE, 6));
    game.bullets.push(Bullet { pos: v(100, 100), speed: v(0, 0), born: 0 });
    game.advance(&no_draws());
    assert_eq!(game.score, 40);
    assert_eq!(game.asteroids, vec![still_rock(v(101, 100), 15 * ONE, 6)]);
}

#[test]
fn fragments_can_be_hit_in_the_same_tick() {
    let mut game = seeded(17);
    game.asteroids.push(still_rock(v(100, 100), 40 * ONE, 4));
    game.bullets.push(Bullet { pos: v(100, 100), speed: v(0, 0), born: 0 });
    game.bullets.push(Bullet { pos: v(100, 100), speed: v(0, 0), born: 0 });
    game.advance(&no_draws());
    assert_eq!(game.score, 80);
    assert!(game.bullets.is_empty());
    // one child of 20 is left, and the two children of 10 of the other
    let sizes: Vec<i64> = game.asteroids.iter().map(|a| a.size).collect();
    assert_eq!(sizes, vec![20 * ONE, 10 * ONE, 10 * ONE]);
    assert_eq!(game.explosions.len(), 2);
}

#[test]
fn score_is_held_at_the_largest_number() {
    let mut game = seeded(18);
    game.score = u64::MAX - 5;
    game.asteroids.push(still_rock(v(100, 100), 15 * ONE, 4));
    game.asteroids.push(still_rock(v(600, 100), 15 * ONE, 3));
    game.bullets.push(Bullet { pos: v(100, 100), speed: v(0, 0), born: 0 });
    game.advance(&no_draws());
    assert_eq!(game.score, u64::MAX);
}

#[test]
fn explosions_fade() {
    let mut game = seeded(19);
    game.asteroids.push(still_rock(v(100, 100), 15 * ONE, 4));
    game.explosions.push(Explosion::new(v(5, 5), 0));
    for _ in 0..EXPLOSION_TICKS - 1 {
        game.advance(&no_draws());
        assert_eq!(game.explosions.len(), 1);
    }
    game.advance(&no_draws());
    assert!(game.explosions.is_empty());
}

#[test]
fn asteroid_on_the_ship_costs_a_life() {
    let mut game = seeded(20);
    game.asteroids.push(still_rock(v(400, 300), 30 * ONE, 6));
    game.advance(&no_draws());
    assert!(game.ship.dead);
    assert_eq!(game.lives, START_LIVES - 1);
    assert_eq!(
        game.explosions,
        vec![Explosion { pos: v(400, 300), start_tick: 1, lifetime: 1 + EXPLOSION_TICKS }]
    );
    assert_eq!(game.respawn_at, 1 + RESPAWN_TICKS);
    assert_eq!(game.asteroids.len(), 1);
    assert_eq!(game.score, 0);
}

#[test]
fn asteroid_that_only_comes_near_does_no_harm() {
    let mut game = seeded(20);
    // the circle around the ship has a radius of 16, the nearest corner is 17 away
    game.asteroids.push(still_rock(v(447, 300), 30 * ONE, 4));
    game.advance(&no_draws());
    assert!(!game.ship.dead);
    assert_eq!(game.lives, START_LIVES);
    game.asteroids[0].pos = v(446, 300);
    game.advance(&no_draws());
    assert!(game.ship.dead);
}

#[test]
fn lost_ship_returns_after_the_delay() {
    let mut game = seeded(21);
    game.asteroids.push(still_rock(v(400, 300), 30 * ONE, 6));
    game.inputs.key_down(KEY_UP);
    game.advance(&no_draws());
    assert!(game.ship.dead);
    game.asteroids[0].pos = v(100, 100);
    let lost = game.ship;
    for _ in 0..RESPAWN_TICKS - 1 {
        game.advance(&no_draws());
        assert!(game.ship.dead);
        assert_eq!(game.ship, lost);
        assert!(game.bullets.is_empty());
    }
    game.ship.pos = v(10, 10);
    game.ship.angular_speed = 5;
    game.advance(&no_draws());
    assert!(!game.ship.dead);
    assert_eq!(game.ship.pos, v(400, 300));
    assert_eq!(game.ship.speed, v(0, 0));
    assert_eq!(game.ship.angular_speed, 0);
    assert_eq!(game.lives, START_LIVES - 1);
}

#[test]
fn game_is_over_when_the_last_life_is_lost() {
    let mut game = seeded(22);
    game.lives = 1;
    game.score = 70;
    game.asteroids.push(still_rock(v(400, 300), 30 * ONE, 6));
    game.advance(&no_draws());
    assert!(game.is_over());
    assert_eq!(game.lives, 0);
    assert!(game.ship.dead);
    assert_eq!(game.explosions.len(), 1);
    game.asteroids.clear();
    for n in 0..400u64 {
        game.inputs.key_down(KEY_SPACE);
        game.tick();
        game.inputs.key_up(KEY_SPACE);
        assert_eq!(game.tick, 2 + n);
        assert_eq!(game.lives, 0);
        assert!(game.ship.dead);
        assert!(game.asteroids.is_empty());
        assert!(game.bullets.is_empty());
        assert_eq!(game.score, 70);
        assert_eq!(game.wave, 0);
    }
    // the explosion is played to its end
    assert!(game.explosions.is_empty());
}

#[test]
fn ship_is_wrapped_into_the_field_after_its_move() {
    let mut game = seeded(23);
    game.asteroids.push(still_rock(v(100, 100), 20 * ONE, 5));
    game.ship.pos = Vec2D { x: 800 * ONE - 1, y: 5 };
    game.ship.speed = Vec2D { x: 60 * ONE, y: -60 * ONE };
    game.config.drag = 0;
    game.advance(&no_draws());
    assert_eq!(game.ship.pos, Vec2D { x: 65519, y: 600 * ONE + 5 - 65520 });
}

#[test]
fn check_tells_valid_states_from_others() {
    let mut game = seeded(30);
    assert!(game.check());
    for _ in 0..300 {
        game.inputs.key_down(KEY_SPACE);
        game.tick();
        game.inputs.key_up(KEY_SPACE);
        game.tick();
        assert!(game.check());
    }
    let field = game.config.field_size;
    game.ship.pos.x = field.x;
    assert!(!game.check());
    game.ship.pos.x = 0;
    assert!(game.check());
    game.ship.speed = Vec2D { x: game.config.speed_limit, y: 1 };
    assert!(!game.check());
    game.ship.speed = Vec2D { x: game.config.speed_limit, y: 0 };
    assert!(game.check());
    game.ship.angle = -5 * TAU;
    assert!(game.check());
    game.ship.angle = i64::MAX;
    assert!(!game.check());
    game.ship.angle = i64::MIN;
    assert!(!game.check());
    game.ship.angle = 0;
    let now = game.tick;
    game.tick = asteroids::game::TICK_MAX;
    game.ship.angle = i64::MAX;
    assert!(game.check());
    game.tick = asteroids::game::TICK_MAX + 1;
    assert!(!game.check());
    game.tick = now;
    game.ship.angle = 0;
    game.asteroids.push(still_rock(v(1, 1), 0, 5));
    assert!(!game.check());
    game.asteroids.pop();
    game.asteroids.push(still_rock(v(1, 1), ONE, 2));
    assert!(!game.check());
    game.asteroids.pop();
    game.asteroids.push(still_rock(v(1, 1), ONE, 3));
    assert!(game.check());
    game.asteroids[0].angle = -9 * TAU;
    assert!(game.check());
    game.asteroids[0].angle = i64::MAX;
    assert!(!game.check());
    game.asteroids[0].angle = 0;
    game.bullets.push(Bullet { pos: v(1, 1), speed: v(0, 0), born: game.tick + 1 });
    assert!(!game.check());
    game.bullets.pop();
    game.explosions.push(Explosion { pos: v(1, 1), start_tick: 5, lifetime: 5 });
    assert!(!game.check());
    game.explosions.pop();
    game.lives = 0;
    assert_eq!(game.check(), game.ship.dead);
    game.lives = 100;
    assert!(!game.check());
    game.lives = 3;
    game.config.delta_t = 0;
    assert!(!game.check());
}
