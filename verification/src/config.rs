//! The tunables of a session. They are checked once, when a game is made,
//! and never change afterwards.

use crate::fixed::ONE;
use crate::math::Vec2D;
use vstd::prelude::*;

verus! {

/// Largest extent of the field along either axis: 16384 units.
pub const FIELD_MAX: i64 = 0x4000_0000;

/// Largest speed limit and acceleration: 1024 units per second (squared).
pub const SPEED_MAX: i64 = 0x400_0000;

/// Largest angular limit and angular acceleration: 64 radians per second
/// (squared).
pub const SPIN_MAX: i64 = 0x40_0000;

/// Largest angular drag: 16 per second.
pub const ANGULAR_DRAG_MAX: i64 = 0x10_0000;

/// The tunables.
#[derive(Clone, Copy, Debug, PartialEq, Eq, Structural)]
pub struct Config {
    /// Linear drag per unit of squared speed.
    pub drag: i64,
    /// Share of the angular speed lost per second.
    pub angular_drag: i64,
    /// Thrust, in units per second squared.
    pub acceleration: i64,
    /// Steering, in radians per second squared.
    pub angular_accel: i64,
    /// Largest speed of the ship.
    pub speed_limit: i64,
    /// Largest angular speed of the ship.
    pub angular_limit: i64,
    /// Seconds that one tick advances the simulation by.
    pub delta_t: i64,
    /// Extents of the wrapping field.
    pub field_size: Vec2D,
}

/// Why a set of tunables was turned down.
#[derive(Clone, Copy, Debug, PartialEq, Eq, Structural)]
pub enum ConfigError {
    /// An extent of the field is not positive, or above `FIELD_MAX`.
    FieldSize,
    /// The time step is not positive, or above one second.
    TimeStep,
    /// The drag is negative, or above one.
    Drag,
    /// The angular drag is negative, or above `ANGULAR_DRAG_MAX`.
    AngularDrag,
    /// The acceleration is negative, or above `SPEED_MAX`.
    Acceleration,
    /// The angular acceleration is negative, or above `SPIN_MAX`.
    AngularAccel,
    /// The speed limit is negative, or above `SPEED_MAX`.
    SpeedLimit,
    /// The angular limit is negative, or above `SPIN_MAX`.
    AngularLimit,
}

impl Config {
    /// The first fault of the tunables, in the order of `ConfigError`; none
    /// where every tunable is in its range.
    pub open spec fn fault(self) -> Option<ConfigError> {
        if !(0 < self.field_size.x <= FIELD_MAX && 0 < self.field_size.y <= FIELD_MAX) {
            Some(ConfigError::FieldSize)
        } else if !(0 < self.delta_t <= ONE) {
            Some(ConfigError::TimeStep)
        } else if !(0 <= self.drag <= ONE) {
            Some(ConfigError::Drag)
        } else if !(0 <= self.angular_drag <= ANGULAR_DRAG_MAX) {
            Some(ConfigError::AngularDrag)
        } else if !(0 <= self.acceleration <= SPEED_MAX) {
            Some(ConfigError::Acceleration)
        } else if !(0 <= self.angular_accel <= SPIN_MAX) {
            Some(ConfigError::AngularAccel)
        } else if !(0 <= self.speed_limit <= SPEED_MAX) {
            Some(ConfigError::SpeedLimit)
        } else if !(0 <= self.angular_limit <= SPIN_MAX) {
            Some(ConfigError::AngularLimit)
        } else {
            None
        }
    }

    /// Every tunable is in its range.
    pub open spec fn valid(self) -> bool {
        &&& 0 < self.field_size.x <= FIELD_MAX
        &&& 0 < self.field_size.y <= FIELD_MAX
        &&& 0 < self.delta_t <= ONE
        &&& 0 <= self.drag <= ONE
        &&& 0 <= self.angular_drag <= ANGULAR_DRAG_MAX
        &&& 0 <= self.acceleration <= SPEED_MAX
        &&& 0 <= self.angular_accel <= SPIN_MAX
        &&& 0 <= self.speed_limit <= SPEED_MAX
        &&& 0 <= self.angular_limit <= SPIN_MAX
    }

    /// Checks the tunables and names the first fault.
    pub fn validate(&self) -> (checked: Result<(), ConfigError>)
        ensures
            checked is Ok <==> self.valid(),
            checked matches Err(e) ==> self.fault() == Some(e),
            checked is Ok ==> self.fault() is None,
    {
        if !(0 < self.field_size.x && self.field_size.x <= FIELD_MAX && 0 < self.field_size.y
            && self.field_size.y <= FIELD_MAX) {
            Err(ConfigError::FieldSize)
        } else if !(0 < self.delta_t && self.delta_t <= ONE) {
            Err(ConfigError::TimeStep)
        } else if !(0 <= self.drag && self.drag <= ONE) {
            Err(ConfigError::Drag)
        } else if !(0 <= self.angular_drag && self.angular_drag <= ANGULAR_DRAG_MAX) {
            Err(ConfigError::AngularDrag)
        } else if !(0 <= self.acceleration && self.acceleration <= SPEED_MAX) {
            Err(ConfigError::Acceleration)
        } else if !(0 <= self.angular_accel && self.angular_accel <= SPIN_MAX) {
            Err(ConfigError::AngularAccel)
        } else if !(0 <= self.speed_limit && self.speed_limit <= SPEED_MAX) {
            Err(ConfigError::SpeedLimit)
        } else if !(0 <= self.angular_limit && self.angular_limit <= SPIN_MAX) {
            Err(ConfigError::AngularLimit)
        } else {
            Ok(())
        }
    }
}

impl Default for Config {
    /// An 800 by 600 field at sixty ticks per second.
    fn default() -> (config: Config)
        ensures
            config.valid(),
            config == (Config {
                drag: 13,
                angular_drag: 131072,
                acceleration: 13107200,
                angular_accel: 1310720,
                speed_limit: 19660800,
                angular_limit: 393216,
                delta_t: 1092,
                field_size: Vec2D { x: 52428800, y: 39321600 },
            }),
    {
        Config {
            drag: 13,
            angular_drag: 131072,
            acceleration: 13107200,
            angular_accel: 1310720,
            speed_limit: 19660800,
            angular_limit: 393216,
            delta_t: 1092,
            field_size: Vec2D { x: 52428800, y: 39321600 },
        }
    }
}

} // verus!
