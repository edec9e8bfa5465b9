//! The simulation core of an arcade game in a wrapping field: a ship,
//! asteroids, bullets and explosions, advanced one tick at a time.
//!
//! Every quantity is a fixed-point integer (`fixed`), so that the same
//! events and the same draws of the generator give the same game on every
//! machine. `math` has the vectors, `geom` the closest point of a triangle
//! and the circle tests, `nearest` the proof that the closest point is the
//! nearest, `ship` the motion of the ship, `entity` the other entities,
//! `game` the order of a tick, `eventloop` the events of a host, and
//! `render_path` the picture of a game as the text of a vector path.

pub mod config;
pub mod entity;
pub mod eventloop;
pub mod fixed;
pub mod game;
pub mod geom;
pub mod input;
pub mod math;
pub mod nearest;
pub mod render_path;
pub mod rng;
pub mod ship;
