use asteroids::config::Config;
use asteroids::eventloop::{
    decode_event, dispatch, Event, EVENT_ANIMATION_FRAME, EVENT_KEY_DOWN, EVENT_KEY_UP,
};
use asteroids::game::Game;
use asteroids::input::{
    InputIndex, Inputs, KEY_DOWN, KEY_LEFT, KEY_RIGHT, KEY_SPACE, KEY_UP,
};
use asteroids::rng::{fill_status, new_rng, pack_seed, RNGSourceError, SEED_BYTES};

fn game() -> Game {
    Game::new(Config::default(), new_rng(&vec![3; 32]).unwrap()).unwrap()
}

#[test]
fn no_key_is_held_at_first() {
    let inputs = Inputs::new();
    for index in [
        InputIndex::Forward,
        InputIndex::Backward,
        InputIndex::Left,
        InputIndex::Right,
        InputIndex::Fire,
    ] {
        assert!(!inputs.is_down(index));
    }
}

#[test]
fn keys_are_bound_to_controls() {
    assert_eq!(InputIndex::from_key_code(KEY_UP), Some(InputIndex::Forward));
    assert_eq!(InputIndex::from_key_code(KEY_DOWN), Some(InputIndex::Backward));
    assert_eq!(InputIndex::from_key_code(KEY_LEFT), Some(InputIndex::Left));
    assert_eq!(InputIndex::from_key_code(KEY_RIGHT), Some(InputIndex::Right));
    assert_eq!(InputIndex::from_key_code(KEY_SPACE), Some(InputIndex::Fire));
    assert_eq!(InputIndex::from_key_code(38), Some(InputIndex::Forward));
    assert_eq!(InputIndex::from_key_code(32), Some(InputIndex::Fire));
    assert_eq!(InputIndex::from_key_code(0), None);
    assert_eq!(InputIndex::from_key_code(13), None);
    assert_eq!(InputIndex::from_key_code(u32::MAX), None);
}

#[test]
fn key_events_set_one_flag() {
    let mut inputs = Inputs::new();
    inputs.key_down(KEY_LEFT);
    assert!(inputs.is_down(InputIndex::Left));
    assert!(!inputs.is_down(InputIndex::Right));
    assert!(!inputs.is_down(InputIndex::Forward));
    inputs.key_down(KEY_SPACE);
    inputs.key_down(KEY_LEFT);
    assert_eq!(
        inputs,
        Inputs { forward: false, backward: false, left: true, right: false, fire: true }
    );
    inputs.key_up(KEY_LEFT);
    assert_eq!(
        inputs,
        Inputs { forward: false, backward: false, left: false, right: false, fire: true }
    );
    inputs.key_up(KEY_LEFT);
    inputs.key_up(KEY_UP);
    inputs.key_down(13);
    inputs.key_up(99);
    assert_eq!(
        inputs,
        Inputs { forward: false, backward: false, left: false, right: false, fire: true }
    );
}

#[test]
fn set_changes_the_flag_of_its_control() {
    let mut inputs = Inputs::new();
    inputs.set(InputIndex::Backward, true);
    assert!(inputs.is_down(InputIndex::Backward));
    assert!(!inputs.is_down(InputIndex::Forward));
    inputs.set(InputIndex::Backward, false);
    assert_eq!(inputs, Inputs::new());
}

#[test]
fn messages_are_decoded() {
    assert_eq!(decode_event(EVENT_ANIMATION_FRAME, 1, 2, 3), Some(Event::AnimationFrame));
    assert_eq!(
        decode_event(EVENT_KEY_DOWN, 38, 65, 3),
        Some(Event::KeyDown { code: 38, chr: Some('A'), flags: 3 })
    );
    assert_eq!(
        decode_event(EVENT_KEY_UP, 32, 0x20AC, 0),
        Some(Event::KeyUp { code: 32, chr: Some('\u{20AC}'), flags: 0 })
    );
    assert_eq!(decode_event(3, 0, 0, 0), None);
    assert_eq!(decode_event(u32::MAX, 0, 0, 0), None);
}

#[test]
fn numbers_that_are_no_character_are_dropped() {
    for scalar in [0xD800u32, 0xDFFF, 0x110000, u32::MAX] {
        assert_eq!(
            decode_event(1, 7, scalar, 9),
            Some(Event::KeyDown { code: 7, chr: None, flags: 9 })
        );
    }
    for scalar in [0u32, 0xD7FF, 0xE000, 0x10FFFF] {
        assert_eq!(
            decode_event(2, 7, scalar, 9),
            Some(Event::KeyUp { code: 7, chr: char::from_u32(scalar), flags: 9 })
        );
        assert!(char::from_u32(scalar).is_some());
    }
}

#[test]
fn key_events_change_the_keys_and_nothing_else() {
    let mut game = game();
    game.tick();
    let asteroids = game.asteroids.clone();
    let ship = game.ship;
    let frame = dispatch(&mut game, Event::KeyDown { code: KEY_UP, chr: None, flags: 0 });
    assert!(!frame);
    assert!(game.inputs.is_down(InputIndex::Forward));
    assert_eq!(game.tick, 1);
    assert_eq!(game.asteroids, asteroids);
    assert_eq!(game.ship, ship);
    let frame = dispatch(&mut game, Event::KeyUp { code: KEY_UP, chr: Some('w'), flags: 1 });
    assert!(!frame);
    assert_eq!(game.inputs, Inputs::new());
    assert_eq!(game.tick, 1);
}

#[test]
fn animation_frame_advances_the_game() {
    let mut game = game();
    for n in 1..=10u64 {
        assert!(dispatch(&mut game, Event::AnimationFrame));
        assert_eq!(game.tick, n);
    }
    assert_eq!(game.asteroids.len(), 4);
}

#[test]
fn every_frame_is_one_tick_in_every_state() {
    let mut game = game();
    // playing
    assert!(dispatch(&mut game, Event::AnimationFrame));
    assert_eq!(game.tick, 1);
    // the ship is lost
    game.ship.dead = true;
    game.respawn_at = 1000;
    assert!(dispatch(&mut game, Event::AnimationFrame));
    assert_eq!(game.tick, 2);
    // the game is over
    game.lives = 0;
    for n in 3..200u64 {
        assert!(dispatch(&mut game, Event::AnimationFrame));
        assert_eq!(game.tick, n);
        assert!(!dispatch(&mut game, Event::KeyDown { code: KEY_UP, chr: None, flags: 0 }));
        assert_eq!(game.tick, n);
    }
    // the last tick
    game.tick = asteroids::game::TICK_MAX - 1;
    game.wave = 5;
    assert!(game.check());
    assert!(dispatch(&mut game, Event::AnimationFrame));
    assert_eq!(game.tick, asteroids::game::TICK_MAX);
    assert!(game.check());
}

#[test]
fn status_of_the_entropy_source() {
    assert_eq!(fill_status(0), Ok(()));
    assert_eq!(fill_status(1), Err(RNGSourceError::RangeError));
    assert_eq!(fill_status(2), Err(RNGSourceError::QuotaError));
    assert_eq!(fill_status(3), Err(RNGSourceError::UnknownError));
    assert_eq!(fill_status(usize::MAX), Err(RNGSourceError::UnknownError));
}

#[test]
fn seed_must_have_its_length() {
    assert_eq!(SEED_BYTES, 32);
    assert!(new_rng(&vec![0; 32]).is_ok());
    assert_eq!(new_rng(&vec![0; 31]).err(), Some(RNGSourceError::RangeError));
    assert_eq!(new_rng(&vec![0; 33]).err(), Some(RNGSourceError::RangeError));
    assert_eq!(new_rng(&vec![]).err(), Some(RNGSourceError::RangeError));
}

#[test]
fn seed_is_packed_into_words_of_four_bytes() {
    let mut bytes = vec![0u8; 32];
    bytes[0] = 1;
    bytes[5] = 1;
    bytes[10] = 1;
    bytes[15] = 1;
    bytes[16] = 0x78;
    bytes[17] = 0x56;
    bytes[18] = 0x34;
    bytes[19] = 0x12;
    bytes[28] = 255;
    bytes[29] = 255;
    bytes[30] = 255;
    bytes[31] = 255;
    assert_eq!(
        pack_seed(&bytes),
        vec![1, 256, 65536, 16777216, 0x12345678, 0, 0, 0xFFFFFFFF]
    );
}

#[test]
fn every_byte_of_the_seed_matters() {
    let base = vec![9u8; 32];
    let mut first = Game::new(Config::default(), new_rng(&base).unwrap()).unwrap();
    first.tick();
    for i in [0usize, 13, 31] {
        let mut seed = base.clone();
        seed[i] = 10;
        let mut other = Game::new(Config::default(), new_rng(&seed).unwrap()).unwrap();
        other.tick();
        assert_ne!(first.asteroids, other.asteroids);
    }
}

#[test]
fn queue_is_drained_in_order() {
    let mut game = game();
    let mut queue = vec![
        Event::KeyDown { code: KEY_UP, chr: None, flags: 0 },
        Event::AnimationFrame,
        Event::KeyDown { code: KEY_SPACE, chr: Some(' '), flags: 0 },
        Event::KeyUp { code: KEY_UP, chr: None, flags: 0 },
        Event::AnimationFrame,
        Event::AnimationFrame,
        Event::KeyDown { code: KEY_LEFT, chr: None, flags: 0 },
    ];
    let frames = asteroids::eventloop::drain(&mut game, &mut queue);
    assert_eq!(frames, 3);
    assert!(queue.is_empty());
    assert_eq!(game.tick, 3);
    assert_eq!(
        game.inputs,
        Inputs { forward: false, backward: false, left: true, right: false, fire: true }
    );
    // the ship was pushed during the first frame only, and fired in the second
    assert!(game.ship.speed.x > 0);
    assert_eq!(game.bullets.len(), 1);
    assert_eq!(game.bullets[0].born, 2);
    assert_eq!(asteroids::eventloop::drain(&mut game, &mut queue), 0);
    assert_eq!(game.tick, 3);
}
