//! The game: every entity, the counters, and the order of a tick.
//!
//! A tick is a function of the state before it and of the raw draws of the
//! generator that it is handed: `World::step`. `Game::advance` computes that
//! function; `Game::tick` draws and then advances.

use crate::config::{Config, ConfigError, SPEED_MAX, SPIN_MAX};
use crate::entity::{
    heading_of, in_field, lemma_split_conserves, lemma_turned_within, Asteroid, Bullet, Explosion,
    BULLET_SPEED_MAX, SCORE_PER_SIDE, SIZE_MAX, STYLE_MAX, STYLE_MIN,
};
use crate::fixed::{abs, ONE, TAU};
use crate::geom::COORD_MAX;
use crate::input::{InputIndex, Inputs};
use crate::math::Vec2D;
use crate::rng::next_draw;
use crate::ship::{Ship, HEADING_MAX};
use rand::StdRng;
use vstd::prelude::*;

verus! {

/// Lives at the start of a game.
pub const START_LIVES: u64 = 3;

/// Most lives that a game can hold.
pub const LIVES_MAX: u64 = 99;

/// Most bullets in flight.
pub const MAX_BULLETS: usize = 16;

/// Most asteroids in a new wave.
pub const WAVE_MAX: usize = 12;

/// Raw draws that one tick is handed: two for each bullet that may hit and
/// three for each asteroid of a new wave.
pub const ENTROPY_PER_TICK: usize = 68;

/// Ticks that a bullet flies.
pub const BULLET_TICKS: u64 = 90;

/// Ticks between two shots.
pub const FIRE_COOLDOWN: u64 = 8;

/// Ticks between the loss of a ship and its return.
pub const RESPAWN_TICKS: u64 = 120;

/// Radius of a bullet: 2 units.
pub const BULLET_RADIUS: i64 = 131072;

/// Radius of the circle around the ship that asteroids crash into: 16
/// units.
pub const SHIP_RADIUS: i64 = 1048576;

/// Speed of a bullet relative to the ship: 400 units per second.
pub const MUZZLE_SPEED: i64 = 26214400;

/// A tick can start only below this tick count: two to the power 40. The
/// heading of the ship is never reduced and may grow by `SPIN_MAX` in each
/// tick; this many ticks keep it in 64 bits.
pub const TICK_MAX: u64 = 1099511627776;

/// The state of a game as a value: what `Game` holds, without the
/// generator.
pub struct World {
    pub tick: u64,
    pub score: u64,
    pub lives: u64,
    pub ship: Ship,
    pub bullets: Seq<Bullet>,
    pub asteroids: Seq<Asteroid>,
    pub explosions: Seq<Explosion>,
    pub config: Config,
    pub inputs: Inputs,
    pub wave: u64,
    pub fire_held: bool,
    pub fire_ready_at: u64,
    pub respawn_at: u64,
}

/// The game.
#[derive(Debug)]
pub struct Game {
    /// Ticks since the start.
    pub tick: u64,
    /// Points won.
    pub score: u64,
    /// Ships left, the one in play included. At zero the game is over.
    pub lives: u64,
    pub ship: Ship,
    pub bullets: Vec<Bullet>,
    pub asteroids: Vec<Asteroid>,
    pub explosions: Vec<Explosion>,
    pub config: Config,
    pub inputs: Inputs,
    /// Waves of asteroids sent so far.
    pub wave: u64,
    /// Whether the fire key was held during the tick before.
    pub fire_held: bool,
    /// First tick in which the next shot may be fired.
    pub fire_ready_at: u64,
    /// First tick in which a lost ship may return.
    pub respawn_at: u64,
    /// Where the draws of a tick come from.
    pub rng: StdRng,
}

impl View for Game {
    type V = World;

    open spec fn view(&self) -> World {
        World {
            tick: self.tick,
            score: self.score,
            lives: self.lives,
            ship: self.ship,
            bullets: self.bullets@,
            asteroids: self.asteroids@,
            explosions: self.explosions@,
            config: self.config,
            inputs: self.inputs,
            wave: self.wave,
            fire_held: self.fire_held,
            fire_ready_at: self.fire_ready_at,
            respawn_at: self.respawn_at,
        }
    }
}

/// Every bullet is valid and was fired no later than `tick`.
pub open spec fn bullets_valid(bullets: Seq<Bullet>, field: Vec2D, tick: u64) -> bool {
    forall|i: int|
        0 <= i < bullets.len() ==> (#[trigger] bullets[i]).valid(field) && bullets[i].born <= tick
}

/// Every asteroid is valid.
pub open spec fn asteroids_valid(asteroids: Seq<Asteroid>, field: Vec2D) -> bool {
    forall|i: int| 0 <= i < asteroids.len() ==> (#[trigger] asteroids[i]).valid(field)
}

/// The angle of every asteroid leaves room in 64 bits for the swing of every
/// tick from tick `ticks` to tick `TICK_MAX`, each of at most `SPIN_MAX`.
pub open spec fn asteroids_room(asteroids: Seq<Asteroid>, ticks: int) -> bool {
    forall|i: int|
        0 <= i < asteroids.len() ==> abs((#[trigger] asteroids[i]).angle as int) + (TICK_MAX
            - ticks) * 4194304 <= HEADING_MAX
}

/// Every explosion is valid.
pub open spec fn explosions_valid(explosions: Seq<Explosion>, field: Vec2D) -> bool {
    forall|i: int| 0 <= i < explosions.len() ==> (#[trigger] explosions[i]).valid(field)
}

/// The middle of the field.
pub open spec fn field_center(field: Vec2D) -> Vec2D {
    Vec2D { x: (field.x / 2) as i64, y: (field.y / 2) as i64 }
}

/// The bullet that `ship` fires at `tick`: it starts at the ship with the
/// ship's velocity and the muzzle speed along the heading.
pub open spec fn shot_from(ship: Ship, tick: u64) -> Bullet {
    Bullet {
        pos: ship.pos,
        speed: ship.speed.plus(
            (Vec2D { x: MUZZLE_SPEED, y: 0 }).spec_rotate(ship.angle as int),
        ),
        born: tick,
    }
}

/// Whether a bullet still flies at `tick`.
pub open spec fn bullet_flies(bullet: Bullet, tick: u64) -> bool {
    tick - bullet.born < BULLET_TICKS
}

/// The move of a bullet by one time step.
pub open spec fn bullet_move(config: Config) -> spec_fn(Bullet) -> Bullet {
    |b: Bullet| b.moved(config)
}

/// The test whether a bullet still flies at `tick`.
pub open spec fn bullet_test(tick: u64) -> spec_fn(Bullet) -> bool {
    |b: Bullet| bullet_flies(b, tick)
}

/// The move of an asteroid by one time step.
pub open spec fn asteroid_move(config: Config) -> spec_fn(Asteroid) -> Asteroid {
    |a: Asteroid| a.moved(config)
}

/// The test whether an explosion still shows at `tick`.
pub open spec fn explosion_test(tick: u64) -> spec_fn(Explosion) -> bool {
    |e: Explosion| tick < e.lifetime
}

/// The index of the first asteroid from `from` on that the disc reaches.
pub open spec fn first_touched(
    asteroids: Seq<Asteroid>,
    center: Vec2D,
    radius: int,
    from: int,
) -> Option<int>
    decreases asteroids.len() - from,
{
    if from < 0 || from >= asteroids.len() {
        None
    } else if asteroids[from].touches(center, radius) {
        Some(from)
    } else {
        first_touched(asteroids, center, radius, from + 1)
    }
}

/// A score raised by `award`, held at the largest number that fits.
pub open spec fn raised(score: u64, award: int) -> u64 {
    if score + award > u64::MAX {
        u64::MAX
    } else {
        (score + award) as u64
    }
}

/// What the bullets have done so far in a tick: the bullets that hit
/// nothing, and the asteroids, explosions and score after the hits.
pub struct Volley {
    pub flying: Seq<Bullet>,
    pub asteroids: Seq<Asteroid>,
    pub explosions: Seq<Explosion>,
    pub score: u64,
}

impl Volley {
    /// The volley after bullet `bullet`, which is number `index` of its tick.
    /// The bullet hits the first asteroid that its disc reaches. That
    /// asteroid leaves the list and its fragments join the end, headed by
    /// the draws `2 index` and `2 index + 1`; an explosion begins where the
    /// bullet was; the score rises by the award of the asteroid; the bullet
    /// is gone. A bullet that reaches no asteroid flies on.
    pub open spec fn after(self, bullet: Bullet, index: int, draws: Seq<u64>, tick: u64) -> Volley {
        match first_touched(self.asteroids, bullet.pos, BULLET_RADIUS as int, 0) {
            Some(k) => Volley {
                flying: self.flying,
                asteroids: self.asteroids.remove(k) + self.asteroids[k].fragments(
                    heading_of(draws[2 * index]),
                    heading_of(draws[2 * index + 1]),
                ),
                explosions: self.explosions.push(Explosion::at(bullet.pos, tick)),
                score: raised(self.score, self.asteroids[k].award()),
            },
            None => Volley { flying: self.flying.push(bullet), ..self },
        }
    }

    /// The volley after the first `n` of `bullets`, one after the other.
    pub open spec fn after_all(
        self,
        bullets: Seq<Bullet>,
        n: int,
        draws: Seq<u64>,
        tick: u64,
    ) -> Volley
        decreases n,
    {
        if n <= 0 {
            self
        } else {
            self.after_all(bullets, n - 1, draws, tick).after(bullets[n - 1], n - 1, draws, tick)
        }
    }
}

/// Number of asteroids in wave `wave`: three more than the number of the
/// wave, at most `WAVE_MAX`.
pub open spec fn wave_count(wave: u64) -> int {
    if wave + 3 > WAVE_MAX {
        WAVE_MAX as int
    } else {
        wave + 3
    }
}

/// Radius of the asteroids of wave `wave`: 32 units and two more for each
/// wave, at most 64 units.
pub open spec fn wave_size(wave: u64) -> int {
    if wave >= 16 {
        64 * ONE
    } else {
        32 * ONE + wave * (2 * ONE)
    }
}

/// Speed of the asteroids of wave `wave`: 30 units per second and four more
/// for each wave, at most 120.
pub open spec fn wave_speed(wave: u64) -> int {
    if wave >= 23 {
        120 * ONE
    } else {
        30 * ONE + wave * (4 * ONE)
    }
}

/// Asteroid `i` of wave `wave`. It starts on the upper edge of the field at
/// a drawn place, drifts toward a drawn heading, and has a drawn number of
/// sides and a drawn spin of at most one radian per second.
pub open spec fn spawned(i: int, wave: u64, draws: Seq<u64>, config: Config) -> Asteroid {
    let base = 2 * MAX_BULLETS + 3 * i;
    Asteroid {
        pos: Vec2D { x: (draws[base] % (config.field_size.x as u64)) as i64, y: 0 },
        speed: (Vec2D { x: wave_speed(wave) as i64, y: 0 }).spec_rotate(
            heading_of(draws[base + 1]),
        ),
        angle: 0,
        spin: ((draws[base + 2] / 16) % 131073 - ONE) as i64,
        size: wave_size(wave) as i64,
        style: (STYLE_MIN + draws[base + 2] % 10) as usize,
    }
}

impl World {
    /// The heading of the ship leaves room in 64 bits for the swing of every
    /// tick from tick `ticks` to tick `TICK_MAX`, each of at most `SPIN_MAX`.
    pub open spec fn heading_room(self, ticks: int) -> bool {
        abs(self.ship.angle as int) + (TICK_MAX - ticks) * 4194304 <= i64::MAX
    }

    /// The state is one that a tick can work on: valid tunables, every
    /// entity valid and in the field, a ship within its limits and in play
    /// only while lives are left, no more lives than `LIVES_MAX`, no more
    /// bullets than `MAX_BULLETS`, none from the future, a tick count of at
    /// most `TICK_MAX`, and room for the heading of the ship and for the
    /// angles of the asteroids.
    pub open spec fn wf(self) -> bool {
        &&& self.wf_but_heading()
        &&& self.heading_room(self.tick as int)
        &&& asteroids_room(self.asteroids, self.tick as int)
    }

    /// What `wf` asks, but for the room for the heading.
    pub open spec fn wf_but_heading(self) -> bool {
        &&& self.config.valid()
        &&& self.ship.in_range()
        &&& self.tick <= TICK_MAX
        &&& in_field(self.ship.pos, self.config.field_size)
        &&& self.within_limits()
        &&& !self.ship.dead ==> self.lives > 0
        &&& self.lives <= LIVES_MAX
        &&& self.bullets.len() <= MAX_BULLETS
        &&& bullets_valid(self.bullets, self.config.field_size, self.tick)
        &&& asteroids_valid(self.asteroids, self.config.field_size)
        &&& explosions_valid(self.explosions, self.config.field_size)
        &&& self.wave <= self.tick
    }

    /// The ship is no faster than the speed limit and turns no faster than
    /// the angular limit.
    pub open spec fn within_limits(self) -> bool {
        &&& self.ship.speed.spec_len_squared() <= self.config.speed_limit * self.config.speed_limit
        &&& -self.config.angular_limit <= self.ship.angular_speed <= self.config.angular_limit
    }

    /// Every entity lies in the field.
    pub open spec fn all_in_field(self) -> bool {
        &&& in_field(self.ship.pos, self.config.field_size)
        &&& forall|i: int|
            0 <= i < self.bullets.len() ==> in_field(
                (#[trigger] self.bullets[i]).pos,
                self.config.field_size,
            )
        &&& forall|i: int|
            0 <= i < self.asteroids.len() ==> in_field(
                (#[trigger] self.asteroids[i]).pos,
                self.config.field_size,
            )
        &&& forall|i: int|
            0 <= i < self.explosions.len() ==> in_field(
                (#[trigger] self.explosions[i]).pos,
                self.config.field_size,
            )
    }

    /// The tick counter moves on by one.
    pub open spec fn begun(self) -> World {
        World { tick: (self.tick + 1) as u64, ..self }
    }

    /// The ship moves. A ship in play is advanced by its own tick and then
    /// wrapped into the field. A lost ship returns to the middle of the
    /// field, at rest, once its delay has passed and lives are left.
    pub open spec fn steered(self) -> World {
        if !self.ship.dead {
            let moved = self.ship.after_tick(self.inputs, self.config);
            World {
                ship: Ship { pos: moved.pos.spec_rem_euclid(self.config.field_size), ..moved },
                ..self
            }
        } else if self.lives > 0 && self.tick >= self.respawn_at {
            World {
                ship: Ship {
                    pos: field_center(self.config.field_size),
                    speed: Vec2D { x: 0, y: 0 },
                    dead: false,
                    angle: self.ship.angle,
                    angular_speed: 0,
                },
                ..self
            }
        } else {
            self
        }
    }

    /// Whether the ship fires in this tick: the fire key is held and was not
    /// in the tick before, the ship is in play, the time since the last shot
    /// has passed, and there is room for a bullet.
    pub open spec fn fires(self) -> bool {
        &&& self.inputs.fire
        &&& !self.fire_held
        &&& !self.ship.dead
        &&& self.tick >= self.fire_ready_at
        &&& self.bullets.len() < MAX_BULLETS
    }

    /// The ship fires, or not, and the state of the fire key is noted.
    pub open spec fn fired(self) -> World {
        if self.fires() {
            World {
                bullets: self.bullets.push(shot_from(self.ship, self.tick)),
                fire_ready_at: (self.tick + FIRE_COOLDOWN) as u64,
                fire_held: self.inputs.fire,
                ..self
            }
        } else {
            World { fire_held: self.inputs.fire, ..self }
        }
    }

    /// Every bullet moves one step and is wrapped; those that have flown
    /// `BULLET_TICKS` ticks are gone.
    pub open spec fn bullets_moved(self) -> World {
        World {
            bullets: self.bullets.map_values(bullet_move(self.config)).filter(
                bullet_test(self.tick),
            ),
            ..self
        }
    }

    /// Every asteroid drifts one step, is wrapped, and turns by its spin.
    pub open spec fn asteroids_moved(self) -> World {
        World { asteroids: self.asteroids.map_values(asteroid_move(self.config)), ..self }
    }

    /// The explosions whose time is up are gone.
    pub open spec fn explosions_aged(self) -> World {
        World { explosions: self.explosions.filter(explosion_test(self.tick)), ..self }
    }

    /// The bullets hit asteroids, one bullet after the other.
    pub open spec fn shot(self, draws: Seq<u64>) -> World {
        let volley = (Volley {
            flying: Seq::empty(),
            asteroids: self.asteroids,
            explosions: self.explosions,
            score: self.score,
        }).after_all(self.bullets, self.bullets.len() as int, draws, self.tick);
        World {
            bullets: volley.flying,
            asteroids: volley.asteroids,
            explosions: volley.explosions,
            score: volley.score,
            ..self
        }
    }

    /// Whether an asteroid reaches the circle around a ship in play.
    pub open spec fn crashes(self) -> bool {
        !self.ship.dead && first_touched(self.asteroids, self.ship.pos, SHIP_RADIUS as int, 0)
            is Some
    }

    /// A ship that an asteroid reaches is lost: it is marked dead, a life is
    /// taken, an explosion begins where it was, and its return is set
    /// `RESPAWN_TICKS` ticks ahead.
    pub open spec fn crashed(self) -> World {
        if self.crashes() {
            World {
                ship: Ship { dead: true, ..self.ship },
                lives: (self.lives - 1) as u64,
                explosions: self.explosions.push(Explosion::at(self.ship.pos, self.tick)),
                respawn_at: (self.tick + RESPAWN_TICKS) as u64,
                ..self
            }
        } else {
            self
        }
    }

    /// A new wave comes when no asteroid is left and the game is not over.
    pub open spec fn wave_sent(self, draws: Seq<u64>) -> World {
        if self.asteroids.len() == 0 && self.lives > 0 {
            let wave = (self.wave + 1) as u64;
            World {
                wave,
                asteroids: Seq::new(
                    wave_count(wave) as nat,
                    |i: int| spawned(i, wave, draws, self.config),
                ),
                ..self
            }
        } else {
            self
        }
    }

    /// The state after one tick that is handed `draws`.
    pub open spec fn step(self, draws: Seq<u64>) -> World {
        self.begun().steered().fired().bullets_moved().asteroids_moved().explosions_aged().shot(
            draws,
        ).crashed().wave_sent(draws)
    }
}

/// Two games in the same state that are handed the same draws are in the
/// same state after the tick: a step depends on nothing else.
pub proof fn lemma_step_is_determined(
    left: World,
    right: World,
    left_draws: Seq<u64>,
    right_draws: Seq<u64>,
)
    requires
        left == right,
        left_draws == right_draws,
    ensures
        left.step(left_draws) == right.step(right_draws),
{
}

/// A step reads no draw beyond the first `ENTROPY_PER_TICK`: two lists of
/// draws that agree on those give the same step.
pub proof fn lemma_step_reads_its_draws(world: World, draws: Seq<u64>, other: Seq<u64>)
    requires
        world.bullets.len() <= MAX_BULLETS,
        forall|k: int| 0 <= k < ENTROPY_PER_TICK ==> draws[k] == other[k],
    ensures
        world.step(draws) == world.step(other),
{
    let before = world.begun().steered().fired().bullets_moved().asteroids_moved().explosions_aged();
    world.bullets.map_values(bullet_move(world.config)).lemma_filter_len(
        bullet_test(world.begun().tick),
    );
    let start = Volley {
        flying: Seq::empty(),
        asteroids: before.asteroids,
        explosions: before.explosions,
        score: before.score,
    };
    lemma_volley_reads_its_draws(
        start,
        before.bullets,
        before.bullets.len() as int,
        draws,
        other,
        before.tick,
    );
    let shot = before.shot(draws).crashed();
    assert(before.shot(other).crashed() == shot);
    if shot.asteroids.len() == 0 && shot.lives > 0 {
        let wave = (shot.wave + 1) as u64;
        assert(Seq::new(wave_count(wave) as nat, |i: int| spawned(i, wave, draws, shot.config))
            =~= Seq::new(wave_count(wave) as nat, |i: int| spawned(i, wave, other, shot.config)));
    }
}

/// A volley of at most `MAX_BULLETS` bullets reads no draw beyond the first
/// `2 * MAX_BULLETS`.
pub proof fn lemma_volley_reads_its_draws(
    start: Volley,
    bullets: Seq<Bullet>,
    n: int,
    draws: Seq<u64>,
    other: Seq<u64>,
    tick: u64,
)
    requires
        n <= bullets.len() <= MAX_BULLETS,
        forall|k: int| 0 <= k < 2 * MAX_BULLETS ==> draws[k] == other[k],
    ensures
        start.after_all(bullets, n, draws, tick) == start.after_all(bullets, n, other, tick),
    decreases n,
{
    if n > 0 {
        lemma_volley_reads_its_draws(start, bullets, n - 1, draws, other, tick);
    }
}

impl Game {
    /// A new game: tick zero, no score, `START_LIVES` lives, a ship at rest
    /// in the middle of the field, and nothing else. The first tick sends
    /// the first wave. Tunables out of range are turned down.
    pub fn new(config: Config, rng: StdRng) -> (made: Result<Game, ConfigError>)
        ensures
            made is Ok <==> config.valid(),
            made matches Err(e) ==> config.fault() == Some(e),
            made matches Ok(game) ==> game.rng == rng && game@.wf() && game@ == (World {
                tick: 0,
                score: 0,
                lives: START_LIVES,
                ship: Ship {
                    pos: field_center(config.field_size),
                    speed: Vec2D { x: 0, y: 0 },
                    dead: false,
                    angle: 0,
                    angular_speed: 0,
                },
                bullets: Seq::empty(),
                asteroids: Seq::empty(),
                explosions: Seq::empty(),
                config,
                inputs: Inputs {
                    forward: false,
                    backward: false,
                    left: false,
                    right: false,
                    fire: false,
                },
                wave: 0,
                fire_held: false,
                fire_ready_at: 0,
                respawn_at: 0,
            }),
    {
        match config.validate() {
            Err(e) => Err(e),
            Ok(_) => {
                assert(config.speed_limit * config.speed_limit >= 0) by (nonlinear_arith);
                let mut ship: Ship = Ship::new();
                ship.pos = Vec2D { x: config.field_size.x / 2, y: config.field_size.y / 2 };
                let game: Game = Game {
                    tick: 0,
                    score: 0,
                    lives: START_LIVES,
                    ship,
                    bullets: Vec::new(),
                    asteroids: Vec::new(),
                    explosions: Vec::new(),
                    config,
                    inputs: Inputs::new(),
                    wave: 0,
                    fire_held: false,
                    fire_ready_at: 0,
                    respawn_at: 0,
                    rng,
                };
                assert(game@.bullets =~= Seq::empty());
                assert(game@.asteroids =~= Seq::empty());
                assert(game@.explosions =~= Seq::empty());
                Ok(game)
            },
        }
    }

    /// Whether the state is one that a tick can work on. A game that was made
    /// by `new` and changed by ticks and key events alone always is.
    pub fn check(&self) -> (ok: bool)
        ensures
            ok == self@.wf(),
    {
        if self.config.validate().is_err() {
            return false;
        }
        let field: Vec2D = self.config.field_size;
        let ship: Ship = self.ship;
        if !(0 <= ship.pos.x && ship.pos.x < field.x && 0 <= ship.pos.y && ship.pos.y < field.y) {
            return false;
        }
        if !(-SPEED_MAX <= ship.speed.x && ship.speed.x <= SPEED_MAX && -SPEED_MAX <= ship.speed.y
            && ship.speed.y <= SPEED_MAX) {
            return false;
        }
        if !(-SPIN_MAX <= ship.angular_speed && ship.angular_speed <= SPIN_MAX) {
            return false;
        }
        if self.tick > TICK_MAX {
            return false;
        }
        let turned: i128 = if ship.angle < 0 {
            -(ship.angle as i128)
        } else {
            ship.angle as i128
        };
        if turned + ((TICK_MAX - self.tick) as i128) * 4194304 > (i64::MAX as i128) {
            return false;
        }
        let limit: i128 = self.config.speed_limit as i128;
        proof {
            crate::fixed::lemma_mul_abs_le(limit as int, limit as int, 0x400_0000, 0x400_0000);
        }
        if ship.speed.len_squared() > limit * limit {
            return false;
        }
        if !(-self.config.angular_limit <= ship.angular_speed && ship.angular_speed
            <= self.config.angular_limit) {
            return false;
        }
        if (!ship.dead && self.lives == 0) || self.lives > LIVES_MAX || self.bullets.len()
            > MAX_BULLETS || self.wave > self.tick {
            return false;
        }
        let mut i: usize = 0;
        while i < self.bullets.len()
            invariant
                i <= self.bullets.len(),
                field == self.config.field_size,
                bullets_valid(self.bullets@.take(i as int), field, self.tick),
            decreases self.bullets.len() - i,
        {
            let bullet: Bullet = self.bullets[i];
            if !(0 <= bullet.pos.x && bullet.pos.x < field.x && 0 <= bullet.pos.y && bullet.pos.y
                < field.y && -BULLET_SPEED_MAX <= bullet.speed.x && bullet.speed.x
                <= BULLET_SPEED_MAX && -BULLET_SPEED_MAX <= bullet.speed.y && bullet.speed.y
                <= BULLET_SPEED_MAX && bullet.born <= self.tick) {
                assert(!(self.bullets@[i as int].valid(field) && self.bullets@[i as int].born
                    <= self.tick));
                return false;
            }
            assert(self.bullets@.take(i + 1) =~= self.bullets@.take(i as int).push(bullet));
            i = i + 1;
        }
        assert(self.bullets@.take(i as int) =~= self.bullets@);
        let mut i: usize = 0;
        while i < self.asteroids.len()
            invariant
                i <= self.asteroids.len(),
                field == self.config.field_size,
                self.tick <= TICK_MAX,
                asteroids_valid(self.asteroids@.take(i as int), field),
                asteroids_room(self.asteroids@.take(i as int), self.tick as int),
            decreases self.asteroids.len() - i,
        {
            let rock: Asteroid = self.asteroids[i];
            if !(0 <= rock.pos.x && rock.pos.x < field.x && 0 <= rock.pos.y && rock.pos.y < field.y
                && -SPEED_MAX <= rock.speed.x && rock.speed.x <= SPEED_MAX && -SPEED_MAX
                <= rock.speed.y && rock.speed.y <= SPEED_MAX && -SPIN_MAX <= rock.spin && rock.spin
                <= SPIN_MAX && 0 < rock.size && rock.size <= SIZE_MAX && STYLE_MIN <= rock.style
                && rock.style <= STYLE_MAX) {
                assert(!self.asteroids@[i as int].valid(field));
                return false;
            }
            let swung: i128 = if rock.angle < 0 {
                -(rock.angle as i128)
            } else {
                rock.angle as i128
            };
            if swung + ((TICK_MAX - self.tick) as i128) * 4194304 > (HEADING_MAX as i128) {
                assert(!(abs(self.asteroids@[i as int].angle as int) + (TICK_MAX - self.tick)
                    * 4194304 <= HEADING_MAX));
                return false;
            }
            assert(self.asteroids@.take(i + 1) =~= self.asteroids@.take(i as int).push(rock));
            i = i + 1;
        }
        assert(self.asteroids@.take(i as int) =~= self.asteroids@);
        let mut i: usize = 0;
        while i < self.explosions.len()
            invariant
                i <= self.explosions.len(),
                field == self.config.field_size,
                explosions_valid(self.explosions@.take(i as int), field),
            decreases self.explosions.len() - i,
        {
            let flash: Explosion = self.explosions[i];
            if !(0 <= flash.pos.x && flash.pos.x < field.x && 0 <= flash.pos.y && flash.pos.y
                < field.y && flash.start_tick < flash.lifetime) {
                assert(!self.explosions@[i as int].valid(field));
                return false;
            }
            assert(self.explosions@.take(i + 1) =~= self.explosions@.take(i as int).push(flash));
            i = i + 1;
        }
        assert(self.explosions@.take(i as int) =~= self.explosions@);
        true
    }

    /// Whether the game is over: no lives are left.
    pub fn is_over(&self) -> (over: bool)
        ensures
            over == (self.lives == 0),
    {
        self.lives == 0
    }

    fn steer(&mut self)
        requires
            old(self)@.wf_but_heading(),
            old(self)@.heading_room(old(self).tick - 1),
            asteroids_room(old(self)@.asteroids, old(self).tick as int),
        ensures
            final(self)@ == old(self)@.steered(),
            final(self)@.wf(),
            final(self).rng == old(self).rng,
    {
        if !self.ship.dead {
            self.ship.tick(&self.inputs, &self.config);
            self.ship.pos.rem_euclid_assign(&self.config.field_size);
        } else if self.lives > 0 && self.tick >= self.respawn_at {
            assert(self.config.speed_limit * self.config.speed_limit >= 0) by (nonlinear_arith);
            self.ship = Ship {
                pos: Vec2D { x: self.config.field_size.x / 2, y: self.config.field_size.y / 2 },
                speed: Vec2D::zero(),
                dead: false,
                angle: self.ship.angle,
                angular_speed: 0,
            };
        }
    }

    fn fire(&mut self)
        requires
            old(self)@.wf(),
            old(self).tick <= TICK_MAX,
        ensures
            final(self)@ == old(self)@.fired(),
            final(self)@.wf(),
            final(self).rng == old(self).rng,
    {
        let pull: bool = self.inputs.is_down(InputIndex::Fire);
        if pull && !self.fire_held && !self.ship.dead && self.tick >= self.fire_ready_at
            && self.bullets.len() < MAX_BULLETS {
            proof {
                lemma_turned_within(MUZZLE_SPEED as int, self.ship.angle as int);
            }
            let muzzle: Vec2D = Vec2D { x: MUZZLE_SPEED, y: 0 };
            let bullet: Bullet = Bullet {
                pos: self.ship.pos,
                speed: self.ship.speed + muzzle.rotate(self.ship.angle),
                born: self.tick,
            };
            self.bullets.push(bullet);
            self.fire_ready_at = self.tick + FIRE_COOLDOWN;
        }
        self.fire_held = pull;
    }

    fn move_bullets(&mut self)
        requires
            old(self)@.wf(),
        ensures
            final(self)@ == old(self)@.bullets_moved(),
            final(self)@.wf(),
            final(self).rng == old(self).rng,
    {
        let mut kept: Vec<Bullet> = Vec::new();
        let mut i: usize = 0;
        while i < self.bullets.len()
            invariant
                *self == *old(self),
                self@.wf(),
                i <= self.bullets.len(),
                kept@ == self.bullets@.take(i as int).map_values(bullet_move(self.config)).filter(
                    bullet_test(self.tick),
                ),
                kept@.len() <= i,
                bullets_valid(kept@, self.config.field_size, self.tick),
            decreases self.bullets.len() - i,
        {
            let mut bullet: Bullet = self.bullets[i];
            assert(self.bullets@[i as int].valid(self.config.field_size));
            bullet.advance(&self.config);
            proof {
                self.bullets@.lemma_map_take_succ(bullet_move(self.config), i as int);
                self.bullets@.take(i as int).map_values(
                    bullet_move(self.config),
                ).lemma_filter_push(bullet, bullet_test(self.tick));
            }
            if self.tick - bullet.born < BULLET_TICKS {
                kept.push(bullet);
            }
            i = i + 1;
        }
        proof {
            self.bullets@.lemma_take_len();
        }
        self.bullets = kept;
    }

    fn move_asteroids(&mut self)
        requires
            old(self)@.wf(),
            asteroids_room(old(self)@.asteroids, old(self).tick - 1),
        ensures
            final(self)@ == old(self)@.asteroids_moved(),
            final(self)@.wf(),
            final(self).rng == old(self).rng,
    {
        let mut moved: Vec<Asteroid> = Vec::new();
        let mut i: usize = 0;
        while i < self.asteroids.len()
            invariant
                *self == *old(self),
                self@.wf(),
                i <= self.asteroids.len(),
                moved@ == self.asteroids@.take(i as int).map_values(asteroid_move(self.config)),
                asteroids_valid(moved@, self.config.field_size),
                asteroids_room(self.asteroids@, self.tick - 1),
                asteroids_room(moved@, self.tick as int),
            decreases self.asteroids.len() - i,
        {
            let mut asteroid: Asteroid = self.asteroids[i];
            assert(self.asteroids@[i as int].valid(self.config.field_size));
            assert(abs(self.asteroids@[i as int].angle as int) + (TICK_MAX - (self.tick - 1))
                * 4194304 <= HEADING_MAX);
            asteroid.advance(&self.config);
            proof {
                self.asteroids@.lemma_map_take_succ(asteroid_move(self.config), i as int);
            }
            moved.push(asteroid);
            i = i + 1;
        }
        proof {
            self.asteroids@.lemma_take_len();
        }
        self.asteroids = moved;
    }

    fn age_explosions(&mut self)
        requires
            old(self)@.wf(),
        ensures
            final(self)@ == old(self)@.explosions_aged(),
            final(self)@.wf(),
            final(self).rng == old(self).rng,
    {
        let mut kept: Vec<Explosion> = Vec::new();
        let mut i: usize = 0;
        while i < self.explosions.len()
            invariant
                *self == *old(self),
                self@.wf(),
                i <= self.explosions.len(),
                kept@ == self.explosions@.take(i as int).filter(explosion_test(self.tick)),
                explosions_valid(kept@, self.config.field_size),
            decreases self.explosions.len() - i,
        {
            let explosion: Explosion = self.explosions[i];
            assert(self.explosions@[i as int].valid(self.config.field_size));
            proof {
                self.explosions@.lemma_take_succ_push(i as int);
                self.explosions@.take(i as int).lemma_filter_push(
                    explosion,
                    explosion_test(self.tick),
                );
            }
            if self.tick < explosion.lifetime {
                kept.push(explosion);
            }
            i = i + 1;
        }
        proof {
            self.explosions@.lemma_take_len();
        }
        self.explosions = kept;
    }

    fn shoot(&mut self, draws: &Vec<u64>)
        requires
            old(self)@.wf(),
            old(self).tick <= TICK_MAX,
            draws.len() >= ENTROPY_PER_TICK,
        ensures
            final(self)@ == old(self)@.shot(draws@),
            final(self)@.wf(),
            final(self).rng == old(self).rng,
            final(self).score >= old(self).score,
    {
        let ghost start = Volley {
            flying: Seq::empty(),
            asteroids: self.asteroids@,
            explosions: self.explosions@,
            score: self.score,
        };
        let mut flying: Vec<Bullet> = Vec::new();
        let mut j: usize = 0;
        while j < self.bullets.len()
            invariant
                old(self)@.wf(),
                self.tick <= TICK_MAX,
                draws.len() >= ENTROPY_PER_TICK,
                j <= self.bullets.len() <= MAX_BULLETS,
                self.rng == old(self).rng,
                self@ == (World {
                    asteroids: self.asteroids@,
                    explosions: self.explosions@,
                    score: self.score,
                    ..old(self)@
                }),
                flying@ == start.after_all(self.bullets@, j as int, draws@, self.tick).flying,
                self.asteroids@ == start.after_all(
                    self.bullets@,
                    j as int,
                    draws@,
                    self.tick,
                ).asteroids,
                self.explosions@ == start.after_all(
                    self.bullets@,
                    j as int,
                    draws@,
                    self.tick,
                ).explosions,
                self.score == start.after_all(self.bullets@, j as int, draws@, self.tick).score,
                flying@.len() <= j,
                bullets_valid(flying@, self.config.field_size, self.tick),
                asteroids_valid(self.asteroids@, self.config.field_size),
                asteroids_room(self.asteroids@, self.tick as int),
                explosions_valid(self.explosions@, self.config.field_size),
                self.score >= old(self).score,
            decreases self.bullets.len() - j,
        {
            let bullet: Bullet = self.bullets[j];
            assert(self.bullets@[j as int].valid(self.config.field_size));
            let ghost before = start.after_all(self.bullets@, j as int, draws@, self.tick);
            match find_touched(&self.asteroids, bullet.pos, BULLET_RADIUS, &self.config) {
                Some(k) => {
                    let ghost rocks = self.asteroids@;
                    let target: Asteroid = self.asteroids.remove(k);
                    assert(rocks[k as int].valid(self.config.field_size));
                    let mut children: Vec<Asteroid> = target.split(
                        draws[2 * j],
                        draws[2 * j + 1],
                    );
                    proof {
                        lemma_split_conserves(
                            target,
                            heading_of(draws@[2 * j]),
                            heading_of(draws@[2 * j + 1]),
                            self.config.field_size,
                        );
                    }
                    let ghost pieces = children@;
                    self.asteroids.append(&mut children);
                    assert(asteroids_valid(self.asteroids@, self.config.field_size)
                        && asteroids_room(self.asteroids@, self.tick as int)) by {
                        assert forall|i: int| 0 <= i < self.asteroids@.len() implies (
                        #[trigger] self.asteroids@[i]).valid(self.config.field_size) && abs(
                            self.asteroids@[i].angle as int,
                        ) + (TICK_MAX - self.tick) * 4194304 <= HEADING_MAX by {
                            if i < k {
                                assert(self.asteroids@[i] == rocks[i]);
                            } else if i < rocks.len() - 1 {
                                assert(self.asteroids@[i] == rocks[i + 1]);
                            } else {
                                assert(self.asteroids@[i] == pieces[i - (rocks.len() - 1)]);
                                assert(pieces[i - (rocks.len() - 1)].angle == rocks[k as int].angle);
                            }
                        }
                    }
                    self.explosions.push(Explosion::new(bullet.pos, self.tick));
                    self.score = self.score.saturating_add((target.style as u64) * SCORE_PER_SIDE);
                },
                None => {
                    flying.push(bullet);
                },
            }
            assert(start.after_all(self.bullets@, j + 1, draws@, self.tick) == before.after(
                bullet,
                j as int,
                draws@,
                self.tick,
            ));
            j = j + 1;
        }
        self.bullets = flying;
    }

    fn crash(&mut self)
        requires
            old(self)@.wf(),
            old(self).tick <= TICK_MAX,
        ensures
            final(self)@ == old(self)@.crashed(),
            final(self)@.wf(),
            final(self).rng == old(self).rng,
            final(self).lives <= old(self).lives,
    {
        if !self.ship.dead {
            match find_touched(&self.asteroids, self.ship.pos, SHIP_RADIUS, &self.config) {
                Some(_) => {
                    self.ship.dead = true;
                    self.lives = self.lives - 1;
                    self.explosions.push(Explosion::new(self.ship.pos, self.tick));
                    self.respawn_at = self.tick + RESPAWN_TICKS;
                },
                None => {},
            }
        }
    }

    fn send_wave(&mut self, draws: &Vec<u64>)
        requires
            old(self)@.wf(),
            old(self).wave < old(self).tick,
            draws.len() >= ENTROPY_PER_TICK,
        ensures
            final(self)@ == old(self)@.wave_sent(draws@),
            final(self)@.wf(),
            final(self).rng == old(self).rng,
    {
        if self.asteroids.len() == 0 && self.lives > 0 {
            self.wave = self.wave + 1;
            let count: usize = if self.wave > 9 {
                WAVE_MAX
            } else {
                (self.wave as usize) + 3
            };
            let mut i: usize = 0;
            while i < count
                invariant
                    old(self)@.wf(),
                    draws.len() >= ENTROPY_PER_TICK,
                    count == wave_count(self.wave),
                    i <= count <= WAVE_MAX,
                    self.wave == old(self).wave + 1,
                    self.rng == old(self).rng,
                    self@ == (World { wave: self.wave, asteroids: self.asteroids@, ..old(self)@ }),
                    self.asteroids@.len() == i,
                    forall|k: int|
                        0 <= k < i ==> #[trigger] self.asteroids@[k] == spawned(
                            k,
                            self.wave,
                            draws@,
                            self.config,
                        ),
                    asteroids_valid(self.asteroids@, self.config.field_size),
                    asteroids_room(self.asteroids@, self.tick as int),
                decreases count - i,
            {
                let rock: Asteroid = spawn(i, self.wave, draws, &self.config);
                self.asteroids.push(rock);
                i = i + 1;
            }
            assert(self.asteroids@ =~= Seq::new(
                wave_count(self.wave) as nat,
                |i: int| spawned(i, self.wave, draws@, self.config),
            ));
        }
    }

    /// Advances the game by one tick that is handed `draws`.
    ///
    /// In this order: the tick counter moves on; the ship moves, or comes
    /// back; it fires; bullets move and expire; asteroids move; explosions
    /// expire; bullets hit asteroids; asteroids crash into the ship; a new
    /// wave comes if no asteroid is left.
    ///
    /// Afterwards every entity lies in the field, the ship is within its
    /// limits, the score is no lower and the lives are no more than before.
    pub fn advance(&mut self, draws: &Vec<u64>)
        requires
            old(self)@.wf(),
            old(self).tick < TICK_MAX,
            draws.len() >= ENTROPY_PER_TICK,
        ensures
            final(self)@ == old(self)@.step(draws@),
            final(self)@.wf(),
            final(self).rng == old(self).rng,
            final(self)@.all_in_field(),
            final(self)@.within_limits(),
            final(self).tick == old(self).tick + 1,
            final(self).score >= old(self).score,
            final(self).lives <= old(self).lives,
    {
        self.tick = self.tick + 1;
        assert(self@.wf_but_heading()) by {
            assert(bullets_valid(old(self)@.bullets, self.config.field_size, old(self).tick));
        }
        assert(asteroids_room(self.asteroids@, self.tick - 1));
        assert(asteroids_room(self.asteroids@, self.tick as int));
        self.steer();
        self.fire();
        self.move_bullets();
        assert(self.asteroids@ == old(self).asteroids@);
        self.move_asteroids();
        self.age_explosions();
        self.shoot(draws);
        self.crash();
        self.send_wave(draws);
    }

    /// Advances the game by one tick, with `ENTROPY_PER_TICK` draws of its
    /// own generator.
    ///
    /// Whatever is drawn, the state afterwards is the step of the state
    /// before under those draws.
    pub fn tick(&mut self)
        requires
            old(self)@.wf(),
            old(self).tick < TICK_MAX,
        ensures
            exists|draws: Seq<u64>|
                draws.len() == ENTROPY_PER_TICK && final(self)@ == #[trigger] old(self)@.step(
                    draws,
                ),
            final(self)@.wf(),
            final(self)@.all_in_field(),
            final(self)@.within_limits(),
            final(self).tick == old(self).tick + 1,
            final(self).score >= old(self).score,
            final(self).lives <= old(self).lives,
    {
        let mut draws: Vec<u64> = Vec::new();
        while draws.len() < ENTROPY_PER_TICK
            invariant
                self@ == old(self)@,
                draws.len() <= ENTROPY_PER_TICK,
            decreases ENTROPY_PER_TICK - draws.len(),
        {
            let draw: u64 = next_draw(&mut self.rng);
            draws.push(draw);
        }
        self.advance(&draws);
    }
}

/// The index of the first asteroid that the disc reaches.
fn find_touched(asteroids: &Vec<Asteroid>, center: Vec2D, radius: i64, config: &Config) -> (found:
    Option<usize>)
    requires
        config.valid(),
        center.within(COORD_MAX as int),
        asteroids_valid(asteroids@, config.field_size),
    ensures
        found matches Some(k) ==> k < asteroids@.len() && first_touched(
            asteroids@,
            center,
            radius as int,
            0,
        ) == Some(k as int),
        found is None ==> first_touched(asteroids@, center, radius as int, 0) is None,
{
    let mut k: usize = 0;
    while k < asteroids.len()
        invariant
            config.valid(),
            center.within(COORD_MAX as int),
            asteroids_valid(asteroids@, config.field_size),
            k <= asteroids.len(),
            first_touched(asteroids@, center, radius as int, 0) == first_touched(
                asteroids@,
                center,
                radius as int,
                k as int,
            ),
        decreases asteroids.len() - k,
    {
        assert(asteroids@[k as int].valid(config.field_size));
        if asteroids[k].hit_by_circle(center, radius) {
            return Some(k);
        }
        k = k + 1;
    }
    None
}

/// Asteroid `i` of wave `wave`, from its three draws.
fn spawn(i: usize, wave: u64, draws: &Vec<u64>, config: &Config) -> (rock: Asteroid)
    requires
        config.valid(),
        i < WAVE_MAX,
        draws.len() >= ENTROPY_PER_TICK,
    ensures
        rock == spawned(i as int, wave, draws@, *config),
        rock.valid(config.field_size),
{
    let base: usize = 2 * MAX_BULLETS + 3 * i;
    let place: u64 = draws[base] % (config.field_size.x as u64);
    let heading: u64 = draws[base + 1] % (TAU as u64);
    let shape: u64 = draws[base + 2];
    let fast: i64 = if wave >= 23 {
        120 * ONE
    } else {
        30 * ONE + (wave as i64) * 262144
    };
    let wide: i64 = if wave >= 16 {
        64 * ONE
    } else {
        32 * ONE + (wave as i64) * 131072
    };
    proof {
        lemma_turned_within(fast as int, heading as int);
    }
    let along: Vec2D = Vec2D { x: fast, y: 0 };
    Asteroid {
        pos: Vec2D { x: place as i64, y: 0 },
        speed: along.rotate(heading as i64),
        angle: 0,
        spin: (((shape / 16) % 131073) as i64) - ONE,
        size: wide,
        style: STYLE_MIN + ((shape % 10) as usize),
    }
}

} // verus!
