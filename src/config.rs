//! The play-area dimensions, sizes and speeds that a round is built from.

use crate::bricks::brick_count;
use crate::speed::MAX_SPEED;
use vstd::prelude::*;

verus! {

/// Subdivisions of one pixel in every length of the simulation.
pub const UNITS_PER_PIXEL: i64 = 1000;

/// Elapsed time is counted in microseconds.
pub const MICROS_PER_SECOND: i64 = 1_000_000;

/// Largest configured length (2^28 units).
pub const MAX_SIZE: i64 = 0x1000_0000;

/// Largest number of brick rows.
pub const MAX_ROWS: i64 = 1024;

/// A width and a height.
#[derive(Clone, Copy, Debug, PartialEq, Eq, Structural)]
pub struct Size {
    pub width: i64,
    pub height: i64,
}

impl Size {
    pub open spec fn wf(&self) -> bool {
        0 < self.width <= MAX_SIZE && 0 < self.height <= MAX_SIZE
    }
}

/// Constants of a game, fixed when it starts. Lengths are in units, speeds in
/// units per second.
#[derive(Clone, Copy, Debug, PartialEq, Eq, Structural)]
pub struct GameConfig {
    /// The interior of the walls, centered on the origin.
    pub play_area: Size,
    pub ball_starting_speed: i64,
    pub wall_thickness: i64,
    pub paddle_starting_size: Size,
    pub brick_size: Size,
    pub brick_rows: i64,
    pub ball_size: Size,
    /// Height of the paddle's center above the open bottom edge.
    pub paddle_elevation: i64,
    /// Speed gained on each bounce off the paddle's top.
    pub speed_increment: i64,
    /// Speed that paddle bounces never push the ball beyond.
    pub speed_cap: i64,
}

impl GameConfig {
    pub open spec fn wf(&self) -> bool {
        &&& self.play_area.wf()
        &&& 0 < self.wall_thickness <= MAX_SIZE
        &&& self.paddle_starting_size.wf()
        &&& self.paddle_starting_size.width <= self.play_area.width
        &&& self.brick_size.wf()
        &&& 0 <= self.brick_rows <= MAX_ROWS
        &&& self.ball_size.wf()
        &&& 0 <= self.paddle_elevation <= self.play_area.height
        &&& 0 <= self.ball_starting_speed <= self.speed_cap <= MAX_SPEED
        &&& 0 <= self.speed_increment <= MAX_SPEED
    }

    /// Whether a round can be built from this configuration: its sizes and
    /// speeds are in range and its bricks can be counted in memory.
    pub fn is_valid(&self) -> (r: bool)
        ensures
            r == (self.wf() && brick_count(*self) <= usize::MAX),
    {
        let sizes_ok = 0 < self.play_area.width && self.play_area.width <= MAX_SIZE
            && 0 < self.play_area.height && self.play_area.height <= MAX_SIZE
            && 0 < self.wall_thickness && self.wall_thickness <= MAX_SIZE
            && 0 < self.paddle_starting_size.width && self.paddle_starting_size.width <= MAX_SIZE
            && 0 < self.paddle_starting_size.height && self.paddle_starting_size.height <= MAX_SIZE
            && self.paddle_starting_size.width <= self.play_area.width
            && 0 < self.brick_size.width && self.brick_size.width <= MAX_SIZE
            && 0 < self.brick_size.height && self.brick_size.height <= MAX_SIZE
            && 0 <= self.brick_rows && self.brick_rows <= MAX_ROWS
            && 0 < self.ball_size.width && self.ball_size.width <= MAX_SIZE
            && 0 < self.ball_size.height && self.ball_size.height <= MAX_SIZE
            && 0 <= self.paddle_elevation && self.paddle_elevation <= self.play_area.height;
        let speeds_ok = 0 <= self.ball_starting_speed && self.ball_starting_speed <= self.speed_cap
            && self.speed_cap <= MAX_SPEED
            && 0 <= self.speed_increment && self.speed_increment <= MAX_SPEED;
        if !(sizes_ok && speeds_ok) {
            return false;
        }
        let per_row = self.play_area.width / self.brick_size.width;
        proof {
            assert(0 <= per_row <= self.play_area.width) by (nonlinear_arith)
                requires
                    per_row == self.play_area.width / self.brick_size.width,
                    0 < self.brick_size.width,
                    0 < self.play_area.width,
            ;
            assert(0 <= self.brick_rows * per_row <= MAX_ROWS * MAX_SIZE) by (nonlinear_arith)
                requires
                    0 <= per_row <= MAX_SIZE,
                    0 <= self.brick_rows <= MAX_ROWS,
            ;
        }
        (self.brick_rows * per_row) as u64 <= usize::MAX as u64
    }

    /// The standard game: a 600 by 800 pixel area inside 14 pixel walls, a
    /// 140 by 20 paddle 50 pixels above the bottom, ten rows of 40 by 20
    /// bricks, a 14 pixel ball served at 300 pixels per second, gaining 20 on
    /// each paddle bounce up to 1600.
    pub fn standard() -> (r: GameConfig)
        ensures
            r.wf(),
            r.play_area.width == 600 * UNITS_PER_PIXEL,
            r.play_area.height == 800 * UNITS_PER_PIXEL,
            r.wall_thickness == 14 * UNITS_PER_PIXEL,
            r.paddle_starting_size.width == 140 * UNITS_PER_PIXEL,
            r.paddle_starting_size.height == 20 * UNITS_PER_PIXEL,
            r.brick_size.width == 40 * UNITS_PER_PIXEL,
            r.brick_size.height == 20 * UNITS_PER_PIXEL,
            r.brick_rows == 10,
            r.ball_size.width == 14 * UNITS_PER_PIXEL,
            r.ball_size.height == 14 * UNITS_PER_PIXEL,
            r.paddle_elevation == 50 * UNITS_PER_PIXEL,
            r.ball_starting_speed == 300 * UNITS_PER_PIXEL,
            r.speed_increment == 20 * UNITS_PER_PIXEL,
            r.speed_cap == 1600 * UNITS_PER_PIXEL,
    {
        GameConfig {
            play_area: Size { width: 600 * UNITS_PER_PIXEL, height: 800 * UNITS_PER_PIXEL },
            ball_starting_speed: 300 * UNITS_PER_PIXEL,
            wall_thickness: 14 * UNITS_PER_PIXEL,
            paddle_starting_size: Size { width: 140 * UNITS_PER_PIXEL, height: 20 * UNITS_PER_PIXEL },
            brick_size: Size { width: 40 * UNITS_PER_PIXEL, height: 20 * UNITS_PER_PIXEL },
            brick_rows: 10,
            ball_size: Size { width: 14 * UNITS_PER_PIXEL, height: 14 * UNITS_PER_PIXEL },
            paddle_elevation: 50 * UNITS_PER_PIXEL,
            speed_increment: 20 * UNITS_PER_PIXEL,
            speed_cap: 1600 * UNITS_PER_PIXEL,
        }
    }
}

} // verus!
