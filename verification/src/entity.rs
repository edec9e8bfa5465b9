//! Asteroids, bullets and explosions.

use crate::config::{Config, FIELD_MAX, SPEED_MAX, SPIN_MAX};
use crate::fixed::{
    cos_fx, fx_mul, lemma_mul_fx_le, lemma_sin_cos_range, mul_fx, sin_fx, ONE, TAU,
};
use crate::geom::{circle_meets_triangle, test_circle_triangle, COORD_MAX};
use crate::math::Vec2D;
use crate::ship::{lemma_step_shrinks, step_of, HEADING_MAX};
use vstd::prelude::*;

verus! {

/// Fewest sides of an asteroid.
pub const STYLE_MIN: usize = 3;

/// Most sides of an asteroid.
pub const STYLE_MAX: usize = 12;

/// Largest radius of an asteroid: 256 units.
pub const SIZE_MAX: i64 = 0x100_0000;

/// An asteroid of this radius or less breaks up without children: 15 units.
pub const SPLIT_SIZE: i64 = 983040;

/// Speed that the children of a split gain over their parent: 10 units per
/// second.
pub const SPLIT_BOOST: i64 = 655360;

/// Score for each side of a destroyed asteroid.
pub const SCORE_PER_SIDE: u64 = 10;

/// Ticks that an explosion lasts.
pub const EXPLOSION_TICKS: u64 = 30;

/// Largest speed of a bullet along either axis: that of the ship and of the
/// muzzle together.
pub const BULLET_SPEED_MAX: i64 = 0x800_0000;

/// `pos` lies in the field: `0 <= pos < field` along both axes.
pub open spec fn in_field(pos: Vec2D, field: Vec2D) -> bool {
    0 <= pos.x < field.x && 0 <= pos.y < field.y
}

/// The position reached from `pos` after one time step at `speed`, wrapped
/// into the field.
pub open spec fn drifted(pos: Vec2D, speed: Vec2D, config: Config) -> Vec2D {
    pos.plus(speed.spec_scale(config.delta_t as int)).spec_rem_euclid(config.field_size)
}

/// A raw draw of the generator as a heading in `0 .. TAU`.
pub open spec fn heading_of(draw: u64) -> int {
    (draw % (TAU as u64)) as int
}

/// A regular polygon that drifts and spins.
#[derive(Clone, Copy, Debug, PartialEq, Eq, Structural)]
pub struct Asteroid {
    /// Centre of the polygon.
    pub pos: Vec2D,
    /// Drift, in units per second. Nothing slows it down.
    pub speed: Vec2D,
    /// Turn of the first corner, in radians. It is never reduced to one turn.
    pub angle: i64,
    /// Turning rate, in radians per second.
    pub spin: i64,
    /// Distance of the corners from the centre.
    pub size: i64,
    /// Number of sides.
    pub style: usize,
}

/// A shot.
#[derive(Clone, Copy, Debug, PartialEq, Eq, Structural)]
pub struct Bullet {
    /// Where the bullet is.
    pub pos: Vec2D,
    /// Its velocity, in units per second.
    pub speed: Vec2D,
    /// The tick in which it was fired.
    pub born: u64,
}

/// The flash left by a destroyed ship or asteroid. It only matters to the
/// picture.
#[derive(Clone, Copy, Debug, PartialEq, Eq, Structural)]
pub struct Explosion {
    /// Where the explosion is.
    pub pos: Vec2D,
    /// The tick in which it began.
    pub start_tick: u64,
    /// The tick from which on it is gone.
    pub lifetime: u64,
}

impl Bullet {
    /// The bullet is in the field and no faster than a bullet can be.
    pub open spec fn valid(self, field: Vec2D) -> bool {
        in_field(self.pos, field) && self.speed.within(BULLET_SPEED_MAX as int)
    }

    /// The bullet after one time step.
    pub open spec fn moved(self, config: Config) -> Bullet {
        Bullet { pos: drifted(self.pos, self.speed, config), ..self }
    }

    /// Moves the bullet by one time step and wraps it into the field.
    pub fn advance(&mut self, config: &Config)
        requires
            config.valid(),
            old(self).valid(config.field_size),
        ensures
            *final(self) == old(self).moved(*config),
            final(self).valid(config.field_size),
    {
        proof {
            lemma_step_shrinks(self.speed.x as int, config.delta_t as int);
            lemma_step_shrinks(self.speed.y as int, config.delta_t as int);
        }
        let step: Vec2D = self.speed.scale(config.delta_t);
        self.pos.add_assign(step);
        self.pos.rem_euclid_assign(&config.field_size);
    }
}

impl Explosion {
    /// The explosion is in the field and ends after it began.
    pub open spec fn valid(self, field: Vec2D) -> bool {
        in_field(self.pos, field) && self.start_tick < self.lifetime
    }

    /// An explosion that begins at `tick`.
    pub open spec fn at(pos: Vec2D, tick: u64) -> Explosion {
        Explosion { pos, start_tick: tick, lifetime: (tick + EXPLOSION_TICKS) as u64 }
    }

    /// An explosion at `pos` that begins at `tick`.
    pub fn new(pos: Vec2D, tick: u64) -> (explosion: Explosion)
        requires
            tick + EXPLOSION_TICKS <= u64::MAX,
        ensures
            explosion == Explosion::at(pos, tick),
    {
        Explosion { pos, start_tick: tick, lifetime: tick + EXPLOSION_TICKS }
    }
}

impl Asteroid {
    /// The asteroid is in the field, has at least three sides and a positive
    /// size, and its speed and spin are in their ranges.
    pub open spec fn in_range(self, field: Vec2D) -> bool {
        &&& in_field(self.pos, field)
        &&& self.speed.within(SPEED_MAX as int)
        &&& -SPIN_MAX <= self.spin <= SPIN_MAX
        &&& 0 < self.size <= SIZE_MAX
        &&& STYLE_MIN <= self.style <= STYLE_MAX
    }

    /// The asteroid is in range, and its angle leaves room in 64 bits for
    /// the swing of one tick.
    pub open spec fn valid(self, field: Vec2D) -> bool {
        &&& self.in_range(field)
        &&& -HEADING_MAX <= self.angle <= HEADING_MAX
    }

    /// Corner `i` of the polygon: the centre plus the radius turned by the
    /// asteroid's own angle and `i` of `style` equal parts of a full turn.
    /// Corner `style` is corner 0 again.
    pub open spec fn corner(self, i: int) -> Vec2D {
        self.pos.plus(
            (Vec2D { x: self.size, y: 0 }).spec_rotate(self.angle + (i * TAU) / (self.style as int)),
        )
    }

    /// The closed disc around `center` reaches the polygon: it reaches one
    /// of the triangles that the centre spans with two neighbouring corners.
    pub open spec fn touches(self, center: Vec2D, radius: int) -> bool {
        exists|i: int|
            0 <= i < self.style && #[trigger] circle_meets_triangle(
                center,
                radius,
                self.pos,
                self.corner(i),
                self.corner(i + 1),
            )
    }

    /// The asteroid after one time step.
    pub open spec fn moved(self, config: Config) -> Asteroid {
        Asteroid {
            pos: drifted(self.pos, self.speed, config),
            angle: (self.angle + mul_fx(self.spin as int, config.delta_t as int)) as i64,
            ..self
        }
    }

    /// The score for destroying the asteroid.
    pub open spec fn award(self) -> int {
        self.style * SCORE_PER_SIDE
    }

    /// The speed at which the children of the asteroid fly off.
    pub open spec fn child_speed(self) -> int {
        if self.speed.spec_len() + SPLIT_BOOST > SPEED_MAX {
            SPEED_MAX as int
        } else {
            self.speed.spec_len() + SPLIT_BOOST
        }
    }

    /// A child of the asteroid: half its size, the same place, shape and
    /// angle, flying off toward `heading`.
    pub open spec fn child(self, heading: int, spin: int) -> Asteroid {
        Asteroid {
            pos: self.pos,
            speed: (Vec2D { x: self.child_speed() as i64, y: 0 }).spec_rotate(heading),
            angle: self.angle,
            spin: spin as i64,
            size: (self.size / 2) as i64,
            style: self.style,
        }
    }

    /// What a hit leaves of the asteroid: two children where it is larger
    /// than `SPLIT_SIZE`, nothing otherwise. The second child spins the
    /// other way.
    pub open spec fn fragments(self, first_heading: int, second_heading: int) -> Seq<Asteroid> {
        if self.size > SPLIT_SIZE {
            seq![
                self.child(first_heading, self.spin as int),
                self.child(second_heading, -self.spin),
            ]
        } else {
            Seq::empty()
        }
    }

    /// Every corner lies within the radius of the centre, along both axes.
    pub proof fn lemma_corner_near(self, i: int)
        requires
            0 < self.size <= SIZE_MAX,
            self.pos.within(FIELD_MAX as int),
        ensures
            self.corner(i).within(COORD_MAX as int),
            self.corner(i).x - self.pos.x <= self.size,
            self.pos.x - self.corner(i).x <= self.size,
            self.corner(i).y - self.pos.y <= self.size,
            self.pos.y - self.corner(i).y <= self.size,
    {
        let turn = self.angle + (i * TAU) / (self.style as int);
        lemma_sin_cos_range(turn);
        lemma_mul_fx_le(self.size as int, cos_fx(turn), self.size as int, ONE as int);
        lemma_mul_fx_le(self.size as int, sin_fx(turn), self.size as int, ONE as int);
        vstd::arithmetic::div_mod::lemma_div_multiples_vanish(self.size as int, ONE as int);
        assert(self.size * ONE == ONE * self.size);
        assert(mul_fx(0, cos_fx(turn)) == 0);
        assert(mul_fx(0, sin_fx(turn)) == 0);
    }

    /// Corner `i` of the polygon.
    pub fn vertex(&self, i: usize) -> (corner: Vec2D)
        requires
            self.pos.within(FIELD_MAX as int),
            0 < self.size <= SIZE_MAX,
            -HEADING_MAX <= self.angle <= HEADING_MAX,
            STYLE_MIN <= self.style <= STYLE_MAX,
            i <= self.style,
        ensures
            corner == self.corner(i as int),
            corner.within(COORD_MAX as int),
    {
        let part: i64 = ((i as i64) * TAU) / (self.style as i64);
        proof {
            let sides = self.style as int;
            assert(i * TAU <= sides * TAU) by (nonlinear_arith)
                requires
                    0 <= i <= sides,
            ;
            vstd::arithmetic::div_mod::lemma_div_is_ordered(i * TAU, sides * TAU, sides);
            vstd::arithmetic::div_mod::lemma_div_multiples_vanish(TAU as int, sides);
            assert(sides * TAU == TAU * sides) by (nonlinear_arith);
            self.lemma_corner_near(i as int);
            lemma_turned_within(self.size as int, self.angle + part);
        }
        let spoke: Vec2D = Vec2D { x: self.size, y: 0 };
        self.pos + spoke.rotate(self.angle + part)
    }

    /// Whether the closed disc around `center` reaches the polygon.
    pub fn hit_by_circle(&self, center: Vec2D, radius: i64) -> (hit: bool)
        requires
            self.pos.within(FIELD_MAX as int),
            0 < self.size <= SIZE_MAX,
            -HEADING_MAX <= self.angle <= HEADING_MAX,
            STYLE_MIN <= self.style <= STYLE_MAX,
            center.within(COORD_MAX as int),
        ensures
            hit == self.touches(center, radius as int),
    {
        let mut i: usize = 0;
        let mut from: Vec2D = self.vertex(0);
        while i < self.style
            invariant
                self.pos.within(FIELD_MAX as int),
                0 < self.size <= SIZE_MAX,
                -HEADING_MAX <= self.angle <= HEADING_MAX,
                STYLE_MIN <= self.style <= STYLE_MAX,
                center.within(COORD_MAX as int),
                i <= self.style,
                from == self.corner(i as int),
                from.within(COORD_MAX as int),
                forall|k: int|
                    0 <= k < i ==> !#[trigger] circle_meets_triangle(
                        center,
                        radius as int,
                        self.pos,
                        self.corner(k),
                        self.corner(k + 1),
                    ),
            decreases self.style - i,
        {
            let to: Vec2D = self.vertex(i + 1);
            if test_circle_triangle(center, radius, self.pos, from, to) {
                return true;
            }
            from = to;
            i = i + 1;
        }
        false
    }

    /// Moves the asteroid by one time step, wraps it into the field and
    /// turns it by its spin. The angle is the old angle and the swing of the
    /// step, whatever turn that is.
    pub fn advance(&mut self, config: &Config)
        requires
            config.valid(),
            old(self).valid(config.field_size),
        ensures
            *final(self) == old(self).moved(*config),
            final(self).in_range(config.field_size),
            final(self).angle == old(self).angle + mul_fx(
                old(self).spin as int,
                config.delta_t as int,
            ),
            -SPIN_MAX <= final(self).angle - old(self).angle <= SPIN_MAX,
    {
        proof {
            lemma_step_shrinks(self.spin as int, config.delta_t as int);
        }
        let step: Vec2D = step_of(self.speed, config.delta_t);
        self.pos.add_assign(step);
        self.pos.rem_euclid_assign(&config.field_size);
        let swing: i64 = fx_mul(self.spin, config.delta_t);
        self.angle = self.angle + swing;
    }

    /// What a hit leaves of the asteroid, given two raw draws of the
    /// generator for the headings of the children: the first draw for the
    /// first child.
    pub fn split(&self, first: u64, second: u64) -> (children: Vec<Asteroid>)
        requires
            self.speed.within(SPEED_MAX as int),
            -SPIN_MAX <= self.spin <= SPIN_MAX,
        ensures
            children@ == self.fragments(heading_of(first), heading_of(second)),
            self.size > SPLIT_SIZE ==> children@.len() == 2,
            self.size <= SPLIT_SIZE ==> children@.len() == 0,
    {
        let mut children: Vec<Asteroid> = Vec::new();
        if self.size > SPLIT_SIZE {
            proof {
                self.speed.lemma_len_bounds(SPEED_MAX as int);
            }
            let drift: i64 = self.speed.len();
            let fast: i64 = if drift + SPLIT_BOOST > SPEED_MAX {
                SPEED_MAX
            } else {
                drift + SPLIT_BOOST
            };
            let along: Vec2D = Vec2D { x: fast, y: 0 };
            let first_heading: i64 = (first % (TAU as u64)) as i64;
            let second_heading: i64 = (second % (TAU as u64)) as i64;
            children.push(
                Asteroid {
                    pos: self.pos,
                    speed: along.rotate(first_heading),
                    angle: self.angle,
                    spin: self.spin,
                    size: self.size / 2,
                    style: self.style,
                },
            );
            children.push(
                Asteroid {
                    pos: self.pos,
                    speed: along.rotate(second_heading),
                    angle: self.angle,
                    spin: -self.spin,
                    size: self.size / 2,
                    style: self.style,
                },
            );
            assert(children@ =~= self.fragments(heading_of(first), heading_of(second)));
        }
        children
    }
}

/// A vector along the first axis, turned, keeps each component within its
/// length.
pub proof fn lemma_turned_within(length: int, angle: int)
    requires
        0 <= length <= i64::MAX,
    ensures
        (Vec2D { x: length as i64, y: 0 }).spec_rotate(angle).within(length),
{
    lemma_sin_cos_range(angle);
    lemma_mul_fx_le(length, cos_fx(angle), length, ONE as int);
    lemma_mul_fx_le(length, sin_fx(angle), length, ONE as int);
    vstd::arithmetic::div_mod::lemma_div_multiples_vanish(length, ONE as int);
    assert(length * ONE == ONE * length);
    assert(mul_fx(0, cos_fx(angle)) == 0);
    assert(mul_fx(0, sin_fx(angle)) == 0);
}

/// A hit on an asteroid larger than `SPLIT_SIZE` leaves exactly two
/// children. Each is strictly smaller than the asteroid, and the squares of
/// their sizes add up to no more than the square of its size. A hit on any
/// other asteroid leaves nothing. Children of a valid asteroid are valid.
pub proof fn lemma_split_conserves(
    parent: Asteroid,
    first_heading: int,
    second_heading: int,
    field: Vec2D,
)
    requires
        parent.valid(field),
    ensures
        parent.size <= SPLIT_SIZE ==> parent.fragments(first_heading, second_heading).len() == 0,
        parent.size > SPLIT_SIZE ==> ({
            let children = parent.fragments(first_heading, second_heading);
            &&& children.len() == 2
            &&& children[0].size < parent.size
            &&& children[1].size < parent.size
            &&& children[0].size * children[0].size + children[1].size * children[1].size
                <= parent.size * parent.size
            &&& children[0].valid(field)
            &&& children[1].valid(field)
            &&& children[0].angle == parent.angle
            &&& children[1].angle == parent.angle
        }),
{
    if parent.size > SPLIT_SIZE {
        let half = parent.size / 2;
        let size = parent.size as int;
        assert(2 * (half * half) <= size * size) by (nonlinear_arith)
            requires
                0 <= 2 * half <= size,
        ;
        parent.speed.lemma_len_bounds(SPEED_MAX as int);
        lemma_turned_within(parent.child_speed(), first_heading);
        lemma_turned_within(parent.child_speed(), second_heading);
    }
}

} // verus!
