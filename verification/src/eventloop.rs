//! The events that a host hands to a game, and what each does to it.
//!
//! The host reports what happened as four numbers. They are decoded into an
//! `Event` here, and `dispatch` applies an event to a game: key events set
//! the held keys and nothing else, an animation frame advances the game by
//! one tick. A host that collects its events in a queue hands the queue to
//! `drain`.

use crate::game::{Game, World, ENTROPY_PER_TICK, TICK_MAX};
use crate::input::Inputs;
use vstd::prelude::*;

verus! {

/// Message number of an animation frame.
pub const EVENT_ANIMATION_FRAME: u32 = 0;

/// Message number of a key that went down.
pub const EVENT_KEY_DOWN: u32 = 1;

/// Message number of a key that went up.
pub const EVENT_KEY_UP: u32 = 2;

/// Something that the host reports.
#[derive(Clone, Copy, Debug, PartialEq, Eq)]
pub enum Event {
    /// The host is about to draw the next frame.
    AnimationFrame,
    /// A key went down.
    KeyDown {
        /// Number of the key.
        code: u32,
        /// The character that the key types, if it types one.
        chr: Option<char>,
        /// The modifier keys held with it.
        flags: u32,
    },
    /// A key went up.
    KeyUp {
        /// Number of the key.
        code: u32,
        /// The character that the key types, if it types one.
        chr: Option<char>,
        /// The modifier keys held with it.
        flags: u32,
    },
}

/// The character with the number `scalar`, where there is one: every number up
/// to `0x10FFFF` but the surrogates `0xD800 ..= 0xDFFF`.
pub open spec fn char_of(scalar: u32) -> Option<char> {
    if scalar <= 0xD7FF || (0xE000 <= scalar && scalar <= 0x10FFFF) {
        Some(scalar as char)
    } else {
        None
    }
}

/// The event that a message of the host stands for; none for an unknown
/// message number. The three parameters of a key message are the key, the
/// character and the modifiers.
pub open spec fn event_of(msg: u32, key: u32, scalar: u32, modifiers: u32) -> Option<Event> {
    if msg == EVENT_ANIMATION_FRAME {
        Some(Event::AnimationFrame)
    } else if msg == EVENT_KEY_DOWN {
        Some(Event::KeyDown { code: key, chr: char_of(scalar), flags: modifiers })
    } else if msg == EVENT_KEY_UP {
        Some(Event::KeyUp { code: key, chr: char_of(scalar), flags: modifiers })
    } else {
        None
    }
}

/// `char::from_u32` of the standard library: the character of a Unicode
/// scalar value, and nothing for a surrogate or a number above `0x10FFFF`.
#[verifier::external_body]
fn char_from_scalar(scalar: u32) -> (c: Option<char>)
    ensures
        c == char_of(scalar),
{
    char::from_u32(scalar)
}

/// Decodes a message of the host.
pub fn decode_event(msg: u32, key: u32, scalar: u32, modifiers: u32) -> (event: Option<Event>)
    ensures
        event == event_of(msg, key, scalar, modifiers),
{
    if msg == EVENT_ANIMATION_FRAME {
        Some(Event::AnimationFrame)
    } else if msg == EVENT_KEY_DOWN {
        Some(Event::KeyDown { code: key, chr: char_from_scalar(scalar), flags: modifiers })
    } else if msg == EVENT_KEY_UP {
        Some(Event::KeyUp { code: key, chr: char_from_scalar(scalar), flags: modifiers })
    } else {
        None
    }
}

/// The state after one event: after a key event the held keys have changed
/// and nothing else, after an animation frame the state is one step on,
/// under `draws`.
pub open spec fn after_event(world: World, event: Event, draws: Seq<u64>) -> World {
    match event {
        Event::AnimationFrame => world.step(draws),
        Event::KeyDown { code, .. } => World { inputs: world.inputs.after_key(code, true), ..world },
        Event::KeyUp { code, .. } => World { inputs: world.inputs.after_key(code, false), ..world },
    }
}

/// Applies one event to a game and says whether a frame has passed, after
/// which the host draws the game and asks for the next frame.
///
/// A key event changes the held keys and nothing else. An animation frame
/// advances the game by one tick, so the tick counter must be below
/// `TICK_MAX`.
pub fn dispatch(game: &mut Game, event: Event) -> (frame: bool)
    requires
        old(game)@.wf(),
        event is AnimationFrame ==> old(game).tick < TICK_MAX,
    ensures
        final(game)@.wf(),
        frame == (event is AnimationFrame),
        exists|draws: Seq<u64>|
            draws.len() == ENTROPY_PER_TICK && final(game)@ == #[trigger] after_event(
                old(game)@,
                event,
                draws,
            ),
        final(game).tick == (if frame {
            old(game).tick + 1
        } else {
            old(game).tick as int
        }),
        final(game).score >= old(game).score,
        final(game).lives <= old(game).lives,
        final(game).config == old(game).config,
        !frame ==> final(game).rng == old(game).rng,
{
    match event {
        Event::KeyDown { code, chr: _, flags: _ } => {
            game.inputs.key_down(code);
            assert(game@ == after_event(old(game)@, event, Seq::new(ENTROPY_PER_TICK as nat, |i: int| 0u64)));
            false
        },
        Event::KeyUp { code, chr: _, flags: _ } => {
            game.inputs.key_up(code);
            assert(game@ == after_event(old(game)@, event, Seq::new(ENTROPY_PER_TICK as nat, |i: int| 0u64)));
            false
        },
        Event::AnimationFrame => {
            game.tick();
            proof {
                let draws = choose|draws: Seq<u64>|
                    draws.len() == ENTROPY_PER_TICK && game@ == #[trigger] old(game)@.step(draws);
                assert(game@ == after_event(old(game)@, event, draws));
            }
            true
        },
    }
}

/// The held keys after the first `n` events of a queue.
pub open spec fn inputs_after(inputs: Inputs, events: Seq<Event>, n: int) -> Inputs
    decreases n,
{
    if n <= 0 {
        inputs
    } else {
        let before = inputs_after(inputs, events, n - 1);
        match events[n - 1] {
            Event::AnimationFrame => before,
            Event::KeyDown { code, .. } => before.after_key(code, true),
            Event::KeyUp { code, .. } => before.after_key(code, false),
        }
    }
}

/// The number of animation frames among the first `n` events of a queue.
pub open spec fn frames_among(events: Seq<Event>, n: int) -> int
    decreases n,
{
    if n <= 0 {
        0
    } else {
        frames_among(events, n - 1) + if events[n - 1] is AnimationFrame {
            1int
        } else {
            0int
        }
    }
}

/// The state after the first `n` events of a queue, one after the other,
/// where event `i` is handed the draws `draws[i]`. Key events read none.
pub open spec fn after_events(
    world: World,
    events: Seq<Event>,
    n: int,
    draws: Seq<Seq<u64>>,
) -> World
    decreases n,
{
    if n <= 0 {
        world
    } else {
        after_event(after_events(world, events, n - 1, draws), events[n - 1], draws[n - 1])
    }
}

/// The frames among more events are no fewer, and no more than the events.
pub proof fn lemma_frames_grow(events: Seq<Event>, n: int, m: int)
    requires
        n <= m,
    ensures
        frames_among(events, n) <= frames_among(events, m),
        0 <= frames_among(events, n),
        n >= 0 ==> frames_among(events, n) <= n,
    decreases m - n, n,
{
    if n > 0 {
        lemma_frames_grow(events, n - 1, n - 1);
    }
    if n < m {
        lemma_frames_grow(events, n, m - 1);
    }
}

/// The state after `n` events does not depend on the draws of later events.
pub proof fn lemma_later_draws(
    world: World,
    events: Seq<Event>,
    n: int,
    draws: Seq<Seq<u64>>,
    next: Seq<u64>,
)
    requires
        n <= draws.len(),
    ensures
        after_events(world, events, n, draws.push(next)) == after_events(world, events, n, draws),
    decreases n,
{
    if n > 0 {
        lemma_later_draws(world, events, n - 1, draws, next);
        assert(draws.push(next)[n - 1] == draws[n - 1]);
    }
}

/// Applies the events of a queue to a game, in their order, and empties the
/// queue. Says how many frames have passed. The tick counter must have room
/// for the frames of the queue.
pub fn drain(game: &mut Game, queue: &mut Vec<Event>) -> (frames: usize)
    requires
        old(game)@.wf(),
        old(game).tick + frames_among(old(queue)@, old(queue)@.len() as int) <= TICK_MAX,
    ensures
        final(game)@.wf(),
        final(queue)@.len() == 0,
        frames == frames_among(old(queue)@, old(queue)@.len() as int),
        exists|draws: Seq<Seq<u64>>|
            draws.len() == old(queue)@.len() && final(game)@ == #[trigger] after_events(
                old(game)@,
                old(queue)@,
                old(queue)@.len() as int,
                draws,
            ),
        final(game).inputs == inputs_after(old(game).inputs, old(queue)@, old(queue)@.len() as int),
        final(game).tick == old(game).tick + frames,
        final(game).score >= old(game).score,
        final(game).lives <= old(game).lives,
        final(game).config == old(game).config,
{
    let mut frames: usize = 0;
    let mut i: usize = 0;
    let ghost mut draws: Seq<Seq<u64>> = Seq::empty();
    while i < queue.len()
        invariant
            *queue == *old(queue),
            i <= queue.len(),
            game@.wf(),
            old(game).tick + frames_among(queue@, queue@.len() as int) <= TICK_MAX,
            frames <= i,
            frames == frames_among(queue@, i as int),
            draws.len() == i,
            game@ == after_events(old(game)@, queue@, i as int, draws),
            game.inputs == inputs_after(old(game).inputs, queue@, i as int),
            game.tick == old(game).tick + frames,
            game.score >= old(game).score,
            game.lives <= old(game).lives,
            game.config == old(game).config,
        decreases queue.len() - i,
    {
        let ghost before = game@;
        let event: Event = queue[i];
        proof {
            lemma_frames_grow(queue@, i + 1, queue@.len() as int);
        }
        if dispatch(game, event) {
            frames = frames + 1;
        }
        proof {
            let next = choose|next: Seq<u64>|
                next.len() == ENTROPY_PER_TICK && game@ == #[trigger] after_event(
                    before,
                    event,
                    next,
                );
            lemma_later_draws(old(game)@, queue@, i as int, draws, next);
            draws = draws.push(next);
        }
        i = i + 1;
    }
    queue.clear();
    frames
}

} // verus!
