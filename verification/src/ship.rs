//! The player's ship and its motion during one tick.
//!
//! A tick applies, in this order: linear drag, angular drag, thrust,
//! steering, the two limits, the wrap of the position left by the tick
//! before, and the move by this tick's velocity.

use crate::config::{Config, SPEED_MAX, SPIN_MAX};
use crate::fixed::{
    abs, div_trunc, fx_mul, isqrt_ceil, lemma_mul_abs_le, lemma_mul_fx_le, lemma_sin_cos_range,
    lemma_sqrt_exists, lemma_trunc_div_bounds, lemma_trunc_div_le, mul_fx, sqrt_ceil,
    sqrt_floor, trunc_div, ONE,
};
use crate::geom::COORD_MAX;
use crate::input::{InputIndex, Inputs};
use crate::math::Vec2D;
use vstd::prelude::*;

verus! {

/// Largest magnitude of a heading before a tick: the largest raw value less
/// the largest swing of one tick.
pub const HEADING_MAX: i64 = 9223372036850581503;

/// The ship.
#[derive(Clone, Copy, Debug, PartialEq, Eq, Structural)]
pub struct Ship {
    /// Where the ship is.
    pub pos: Vec2D,
    /// Its velocity, in units per second.
    pub speed: Vec2D,
    /// Whether it has been destroyed and waits to come back.
    pub dead: bool,
    /// Its heading, in radians. It is never reduced to one turn: only its
    /// sine and cosine are read.
    pub angle: i64,
    /// Its turning rate, in radians per second.
    pub angular_speed: i64,
}

/// Which way the thrust keys push: 1 forward, -1 backward, 0 where neither
/// or both are held.
pub open spec fn thrust_direction(inputs: Inputs) -> int {
    if inputs.forward && !inputs.backward {
        1
    } else if inputs.backward && !inputs.forward {
        -1
    } else {
        0
    }
}

/// Which way the steering keys turn: -1 left, 1 right, 0 where neither or
/// both are held.
pub open spec fn steer_direction(inputs: Inputs) -> int {
    if inputs.left && !inputs.right {
        -1
    } else if inputs.right && !inputs.left {
        1
    } else {
        0
    }
}

/// The velocity after drag: it loses `|v|^2 * drag * dt` along its own
/// direction. The zero velocity has no direction and stays.
pub open spec fn speed_after_drag(speed: Vec2D, drag: int, dt: int) -> Vec2D {
    let magnitude = mul_fx(trunc_div(speed.spec_len_squared(), ONE as int), drag);
    match speed.spec_normalize() {
        Some(direction) => speed.minus(direction.spec_scale(mul_fx(magnitude, dt))),
        None => speed,
    }
}

/// The turning rate after angular drag: it loses its share
/// `angular_drag * dt`.
pub open spec fn spin_after_drag(spin: int, angular_drag: int, dt: int) -> int {
    spin - mul_fx(mul_fx(spin, angular_drag), dt)
}

/// The velocity after thrust of `acceleration * dt` along the heading, or
/// against it.
pub open spec fn speed_after_thrust(
    speed: Vec2D,
    angle: int,
    direction: int,
    acceleration: int,
    dt: int,
) -> Vec2D {
    if direction == 0 {
        speed
    } else {
        speed.plus(
            (Vec2D { x: (direction * mul_fx(acceleration, dt)) as i64, y: 0 }).spec_rotate(angle),
        )
    }
}

/// The turning rate after steering by `angular_accel * dt`.
pub open spec fn spin_after_steer(spin: int, direction: int, angular_accel: int, dt: int) -> int {
    spin + direction * mul_fx(angular_accel, dt)
}

/// The velocity cut down to the speed `limit` where it is faster: scaled by
/// `limit / |v|`, with the length rounded up and the components rounded
/// toward zero, so that the result is never faster than `limit`.
pub open spec fn limit_speed(speed: Vec2D, limit: int) -> Vec2D {
    let squared = speed.spec_len_squared();
    if squared > limit * limit {
        Vec2D {
            x: trunc_div(speed.x * limit, sqrt_ceil(squared)) as i64,
            y: trunc_div(speed.y * limit, sqrt_ceil(squared)) as i64,
        }
    } else {
        speed
    }
}

/// The turning rate held between `-limit` and `limit`.
pub open spec fn limit_spin(spin: int, limit: int) -> int {
    if spin > limit {
        limit
    } else if spin < -limit {
        -limit
    } else {
        spin
    }
}

impl Ship {
    /// Position, speed and turning rate are in their ranges: a speed and a
    /// turning rate within the largest limits that a `Config` can set, a
    /// position in the coordinate range.
    pub open spec fn in_range(self) -> bool {
        &&& self.pos.within(COORD_MAX as int)
        &&& self.speed.within(SPEED_MAX as int)
        &&& -SPIN_MAX <= self.angular_speed <= SPIN_MAX
    }

    /// The ship is one that a tick can work on: it is in range, and its
    /// heading leaves room in 64 bits for the swing of one tick.
    pub open spec fn valid(self) -> bool {
        &&& self.in_range()
        &&& -HEADING_MAX <= self.angle <= HEADING_MAX
    }

    /// The velocity of the ship at the end of a tick.
    pub open spec fn next_speed(self, inputs: Inputs, config: Config) -> Vec2D {
        limit_speed(
            speed_after_thrust(
                speed_after_drag(self.speed, config.drag as int, config.delta_t as int),
                self.angle as int,
                thrust_direction(inputs),
                config.acceleration as int,
                config.delta_t as int,
            ),
            config.speed_limit as int,
        )
    }

    /// The turning rate of the ship at the end of a tick.
    pub open spec fn next_spin(self, inputs: Inputs, config: Config) -> int {
        limit_spin(
            spin_after_steer(
                spin_after_drag(
                    self.angular_speed as int,
                    config.angular_drag as int,
                    config.delta_t as int,
                ),
                steer_direction(inputs),
                config.angular_accel as int,
                config.delta_t as int,
            ),
            config.angular_limit as int,
        )
    }

    /// The ship after one tick under `inputs`.
    pub open spec fn after_tick(self, inputs: Inputs, config: Config) -> Ship {
        let speed = self.next_speed(inputs, config);
        let spin = self.next_spin(inputs, config);
        Ship {
            pos: self.pos.spec_rem_euclid(config.field_size).plus(
                speed.spec_scale(config.delta_t as int),
            ),
            speed,
            dead: self.dead,
            angle: (self.angle + mul_fx(spin, config.delta_t as int)) as i64,
            angular_speed: spin as i64,
        }
    }

    /// A ship at rest at the origin, heading along the first axis.
    pub fn new() -> (ship: Ship)
        ensures
            ship == (Ship {
                pos: Vec2D { x: 0, y: 0 },
                speed: Vec2D { x: 0, y: 0 },
                dead: false,
                angle: 0,
                angular_speed: 0,
            }),
            ship.valid(),
    {
        Ship {
            pos: Vec2D::zero(),
            speed: Vec2D::zero(),
            angle: 0,
            angular_speed: 0,
            dead: false,
        }
    }

    /// Advances the ship by one tick.
    ///
    /// Afterwards the ship is no faster than the speed limit and turns no
    /// faster than the angular limit. Its position is the wrapped old
    /// position moved by one step, so it lies less than one step outside the
    /// field. Its heading is the old heading and the swing of this tick,
    /// whatever turn that is.
    pub fn tick(&mut self, inputs: &Inputs, config: &Config)
        requires
            old(self).valid(),
            config.valid(),
        ensures
            *final(self) == old(self).after_tick(*inputs, *config),
            final(self).in_range(),
            final(self).angle == old(self).angle + mul_fx(
                final(self).angular_speed as int,
                config.delta_t as int,
            ),
            -config.angular_limit <= final(self).angle - old(self).angle <= config.angular_limit,
            final(self).speed.spec_len_squared() <= config.speed_limit * config.speed_limit,
            -config.angular_limit <= final(self).angular_speed <= config.angular_limit,
            -config.speed_limit <= final(self).pos.x < config.field_size.x + config.speed_limit,
            -config.speed_limit <= final(self).pos.y < config.field_size.y + config.speed_limit,
    {
        // drag
        self.speed = apply_drag(self.speed, config.drag, config.delta_t);
        self.angular_speed = apply_angular_drag(
            self.angular_speed,
            config.angular_drag,
            config.delta_t,
        );

        // inputs
        let forward: bool = inputs.is_down(InputIndex::Forward);
        let backward: bool = inputs.is_down(InputIndex::Backward);
        let push: i64 = fixed_step(config.acceleration, config.delta_t);
        if forward && !backward {
            self.speed = thrust(self.speed, self.angle, push);
        } else if backward && !forward {
            self.speed = thrust(self.speed, self.angle, -push);
        }
        let left: bool = inputs.is_down(InputIndex::Left);
        let right: bool = inputs.is_down(InputIndex::Right);
        let turn: i64 = fixed_step(config.angular_accel, config.delta_t);
        if left && !right {
            self.angular_speed = self.angular_speed - turn;
        } else if right && !left {
            self.angular_speed = self.angular_speed + turn;
        }

        // limiters
        self.speed = clamp_speed(self.speed, config.speed_limit);
        if self.angular_speed > config.angular_limit {
            self.angular_speed = config.angular_limit;
        } else if self.angular_speed < -config.angular_limit {
            self.angular_speed = -config.angular_limit;
        }

        // constrain position
        self.pos.rem_euclid_assign(&config.field_size);

        // integration step
        let step: Vec2D = step_of(self.speed, config.delta_t);
        self.pos.add_assign(step);
        let swing: i64 = fixed_step(self.angular_speed, config.delta_t);
        self.angle = self.angle + swing;
    }
}

/// The change that a rate of at most `SPEED_MAX` makes in one time step of
/// at most one second; no larger than the rate.
fn fixed_step(rate: i64, dt: i64) -> (change: i64)
    requires
        -SPEED_MAX <= rate <= SPEED_MAX,
        0 <= dt <= ONE,
    ensures
        change == mul_fx(rate as int, dt as int),
        abs(change as int) <= abs(rate as int),
        rate >= 0 ==> change >= 0,
{
    proof {
        lemma_step_shrinks(rate as int, dt as int);
    }
    fx_mul(rate, dt)
}

/// A fixed-point product with a factor between zero and one is no larger in
/// magnitude than the other factor, and has its sign.
pub proof fn lemma_step_shrinks(rate: int, dt: int)
    requires
        0 <= dt <= ONE,
    ensures
        abs(mul_fx(rate, dt)) <= abs(rate),
        rate >= 0 ==> mul_fx(rate, dt) >= 0,
        rate <= 0 ==> mul_fx(rate, dt) <= 0,
{
    assert(abs(rate * dt) <= abs(rate) * ONE) by (nonlinear_arith)
        requires
            0 <= dt <= ONE,
    ;
    lemma_trunc_div_le(rate * dt, ONE as int, abs(rate) * ONE);
    lemma_trunc_div_bounds(rate * dt, ONE as int);
    vstd::arithmetic::div_mod::lemma_div_multiples_vanish(abs(rate), ONE as int);
    assert(abs(rate) * ONE == ONE * abs(rate));
    assert(rate >= 0 ==> rate * dt >= 0) by (nonlinear_arith)
        requires
            0 <= dt,
    ;
    assert(rate <= 0 ==> rate * dt <= 0) by (nonlinear_arith)
        requires
            0 <= dt,
    ;
}

/// The move that a velocity makes in one time step.
pub fn step_of(speed: Vec2D, dt: i64) -> (step: Vec2D)
    requires
        speed.within(SPEED_MAX as int),
        0 <= dt <= ONE,
    ensures
        step == speed.spec_scale(dt as int),
        abs(step.x as int) <= abs(speed.x as int),
        abs(step.y as int) <= abs(speed.y as int),
{
    proof {
        lemma_step_shrinks(speed.x as int, dt as int);
        lemma_step_shrinks(speed.y as int, dt as int);
    }
    speed.scale(dt)
}

fn apply_drag(speed: Vec2D, drag: i64, dt: i64) -> (slowed: Vec2D)
    requires
        speed.within(SPEED_MAX as int),
        0 <= drag <= ONE,
        0 <= dt <= ONE,
    ensures
        slowed == speed_after_drag(speed, drag as int, dt as int),
        slowed.within(0x20_0400_0000),
{
    proof {
        speed.lemma_len_squared_bounds(0x400_0000);
    }
    let squared: i128 = speed.len_squared();
    let area: i128 = div_trunc(squared, ONE as i128);
    proof {
        lemma_trunc_div_le(squared as int, ONE as int, 0x20_0000_0000_0000);
        lemma_mul_fx_le(area as int, drag as int, 0x20_0000_0000, 0x1_0000);
    }
    let magnitude: i64 = fx_mul(area as i64, drag);
    proof {
        lemma_mul_fx_le(magnitude as int, dt as int, 0x20_0000_0000, 0x1_0000);
    }
    let loss: i64 = fx_mul(magnitude, dt);
    match speed.normalize() {
        Some(direction) => {
            proof {
                lemma_mul_fx_le(direction.x as int, loss as int, 0x1_0000, 0x20_0000_0000);
                lemma_mul_fx_le(direction.y as int, loss as int, 0x1_0000, 0x20_0000_0000);
            }
            speed - direction.scale(loss)
        },
        None => speed,
    }
}

fn apply_angular_drag(spin: i64, angular_drag: i64, dt: i64) -> (slowed: i64)
    requires
        -SPIN_MAX <= spin <= SPIN_MAX,
        0 <= angular_drag <= 0x10_0000,
        0 <= dt <= ONE,
    ensures
        slowed == spin_after_drag(spin as int, angular_drag as int, dt as int),
        -0x440_0000 <= slowed <= 0x440_0000,
{
    proof {
        lemma_mul_fx_le(spin as int, angular_drag as int, 0x40_0000, 0x10_0000);
    }
    let share: i64 = fx_mul(spin, angular_drag);
    proof {
        lemma_mul_fx_le(share as int, dt as int, 0x400_0000, 0x1_0000);
    }
    spin - fx_mul(share, dt)
}

fn thrust(speed: Vec2D, angle: i64, push: i64) -> (pushed: Vec2D)
    requires
        speed.within(0x20_0400_0000),
        -SPEED_MAX <= push <= SPEED_MAX,
    ensures
        pushed == speed.plus((Vec2D { x: push, y: 0 }).spec_rotate(angle as int)),
        pushed.within(0x20_0800_0000),
{
    let along: Vec2D = Vec2D { x: push, y: 0 };
    proof {
        lemma_sin_cos_range(angle as int);
        lemma_mul_fx_le(push as int, crate::fixed::cos_fx(angle as int), 0x400_0000, 0x1_0000);
        lemma_mul_fx_le(push as int, crate::fixed::sin_fx(angle as int), 0x400_0000, 0x1_0000);
        assert(mul_fx(0, crate::fixed::cos_fx(angle as int)) == 0);
        assert(mul_fx(0, crate::fixed::sin_fx(angle as int)) == 0);
    }
    speed + along.rotate(angle)
}

/// Scaling a vector by `limit / length`, with the length rounded up and the
/// components rounded toward zero, leaves it no longer than `limit`.
pub proof fn lemma_limit_speed(x: int, y: int, limit: int, length: int)
    requires
        0 <= limit,
        0 < length,
        x * x + y * y <= length * length,
    ensures
        ({
            let cx = trunc_div(x * limit, length);
            let cy = trunc_div(y * limit, length);
            cx * cx + cy * cy <= limit * limit && abs(cx) <= limit && abs(cy) <= limit
        }),
{
    let cx = trunc_div(x * limit, length);
    let cy = trunc_div(y * limit, length);
    let ax = abs(cx);
    let ay = abs(cy);
    lemma_trunc_div_bounds(x * limit, length);
    lemma_trunc_div_bounds(y * limit, length);
    assert(abs(x * limit) == abs(x) * limit) by (nonlinear_arith)
        requires
            0 <= limit,
    ;
    assert(abs(y * limit) == abs(y) * limit) by (nonlinear_arith)
        requires
            0 <= limit,
    ;
    let px = ax * length;
    let py = ay * length;
    let qx = abs(x) * limit;
    let qy = abs(y) * limit;
    assert(px * px <= qx * qx) by (nonlinear_arith)
        requires
            0 <= px <= qx,
    ;
    assert(py * py <= qy * qy) by (nonlinear_arith)
        requires
            0 <= py <= qy,
    ;
    let ll = length * length;
    let mm = limit * limit;
    assert(px * px == (ax * ax) * ll) by (nonlinear_arith)
        requires
            px == ax * length,
            ll == length * length,
    ;
    assert(py * py == (ay * ay) * ll) by (nonlinear_arith)
        requires
            py == ay * length,
            ll == length * length,
    ;
    assert(qx * qx == (x * x) * mm) by (nonlinear_arith)
        requires
            qx == abs(x) * limit,
            mm == limit * limit,
    ;
    assert(qy * qy == (y * y) * mm) by (nonlinear_arith)
        requires
            qy == abs(y) * limit,
            mm == limit * limit,
    ;
    let s = ax * ax + ay * ay;
    let t = x * x + y * y;
    assert(s * ll == (ax * ax) * ll + (ay * ay) * ll) by (nonlinear_arith)
        requires
            s == ax * ax + ay * ay,
    ;
    assert(t * mm == (x * x) * mm + (y * y) * mm) by (nonlinear_arith)
        requires
            t == x * x + y * y,
    ;
    assert(t * mm <= ll * mm) by (nonlinear_arith)
        requires
            t <= ll,
            0 <= mm,
    ;
    assert(0 < ll) by (nonlinear_arith)
        requires
            ll == length * length,
            0 < length,
    ;
    assert(s <= mm) by (nonlinear_arith)
        requires
            s * ll <= ll * mm,
            0 < ll,
    ;
    assert(cx * cx == ax * ax && cy * cy == ay * ay) by (nonlinear_arith)
        requires
            ax == abs(cx),
            ay == abs(cy),
    ;
    assert(ax * ax >= 0 && ay * ay >= 0) by (nonlinear_arith);
    assert(ax <= limit) by (nonlinear_arith)
        requires
            ax * ax <= limit * limit,
            0 <= ax,
            0 <= limit,
    ;
    assert(ay <= limit) by (nonlinear_arith)
        requires
            ay * ay <= limit * limit,
            0 <= ay,
            0 <= limit,
    ;
}

/// The velocity cut down to the speed `limit` where it is faster.
pub fn clamp_speed(speed: Vec2D, limit: i64) -> (clamped: Vec2D)
    requires
        speed.within(0x20_0800_0000),
        0 <= limit <= SPEED_MAX,
    ensures
        clamped == limit_speed(speed, limit as int),
        clamped.spec_len_squared() <= limit * limit,
        clamped.within(limit as int),
{
    proof {
        speed.lemma_len_squared_bounds(0x20_0800_0000);
        lemma_mul_abs_le(limit as int, limit as int, 0x400_0000, 0x400_0000);
        assert(limit * limit >= 0) by (nonlinear_arith);
    }
    let squared: i128 = speed.len_squared();
    let wide: i128 = limit as i128;
    if squared > wide * wide {
        let length: u128 = isqrt_ceil(squared as u128);
        proof {
            lemma_sqrt_exists(squared as int);
            crate::fixed::lemma_sqrt_le(
                squared as int,
                sqrt_floor(squared as int),
                0x40_1000_0000,
            );
            lemma_limit_speed(speed.x as int, speed.y as int, limit as int, length as int);
            lemma_mul_abs_le(speed.x as int, limit as int, 0x20_0800_0000, 0x400_0000);
            lemma_mul_abs_le(speed.y as int, limit as int, 0x20_0800_0000, 0x400_0000);
        }
        let x: i128 = div_trunc((speed.x as i128) * wide, length as i128);
        let y: i128 = div_trunc((speed.y as i128) * wide, length as i128);
        Vec2D { x: x as i64, y: y as i64 }
    } else {
        proof {
            let x = speed.x as int;
            let y = speed.y as int;
            let l = limit as int;
            assert(x * x >= 0 && y * y >= 0) by (nonlinear_arith);
            assert(abs(x) <= l) by (nonlinear_arith)
                requires
                    x * x <= l * l,
                    0 <= l,
            ;
            assert(abs(y) <= l) by (nonlinear_arith)
                requires
                    y * y <= l * l,
                    0 <= l,
            ;
        }
        speed
    }
}

} // verus!
