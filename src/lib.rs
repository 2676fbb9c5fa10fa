//! Breakout simulation core: axis-aligned collision detection, ball motion,
//! paddle control, brick durability and the round's state machine.
//!
//! All lengths are integers in sub-pixel units (see [`config::UNITS_PER_PIXEL`]),
//! speeds are in units per second and elapsed time is in microseconds.

pub mod geometry;
pub mod speed;
pub mod config;
pub mod ball;
pub mod walls;
pub mod paddle;
pub mod bricks;
pub mod round;
pub mod flow;
