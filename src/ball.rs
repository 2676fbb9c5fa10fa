//! The ball: its velocity, its cached speed, and its motion.

use crate::config::{GameConfig, MICROS_PER_SECOND};
use crate::geometry::{Aabb, Vec2, MAX_COORD};
use crate::speed::{
    abs, ceil_sqrt, is_ceil_sqrt, norm2, scale_to_speed, scaled, speed_matches, MAX_DIRECTION,
    MAX_SPEED,
};
use vstd::prelude::*;

verus! {

/// A ball's motion: its velocity, in units per second, and its speed, the
/// length of that velocity that paddle bounces keep and raise.
#[derive(Clone, Copy, Debug, PartialEq, Eq, Structural)]
pub struct Ball {
    pub velocity: Vec2,
    pub speed: i64,
}

impl Ball {
    /// The speed is bounded and is the velocity's length, to within rounding.
    pub open spec fn wf(&self) -> bool {
        &&& 0 <= self.speed <= MAX_SPEED
        &&& speed_matches(self.velocity.x as int, self.velocity.y as int, self.speed as int)
    }

    /// A ball at rest has no velocity.
    pub open spec fn at_rest(&self) -> bool {
        self.velocity.x == 0 && self.velocity.y == 0
    }

    /// A ball moving along `direction` at the configured starting speed.
    pub fn with_default_speed(direction: Vec2, config: &GameConfig) -> (r: Ball)
        requires
            config.wf(),
            abs(direction.x as int) <= MAX_DIRECTION,
            abs(direction.y as int) <= MAX_DIRECTION,
        ensures
            r.wf(),
            r.speed == config.ball_starting_speed,
            r.velocity.x == scaled(direction.x as int, direction.y as int, r.speed as int).0,
            r.velocity.y == scaled(direction.x as int, direction.y as int, r.speed as int).1,
    {
        let velocity = scale_to_speed(direction, config.ball_starting_speed);
        Ball { velocity, speed: config.ball_starting_speed }
    }

    /// A ball with the given velocity; its speed is the velocity's length,
    /// rounded up.
    pub fn new(velocity: Vec2) -> (r: Ball)
        requires
            norm2(velocity.x as int, velocity.y as int) <= MAX_SPEED * MAX_SPEED,
        ensures
            r.wf(),
            r.velocity == velocity,
            is_ceil_sqrt(r.speed as int, norm2(velocity.x as int, velocity.y as int)),
    {
        proof {
            let vx = velocity.x as int;
            let vy = velocity.y as int;
            assert(0 <= vx * vx <= MAX_SPEED * MAX_SPEED && 0 <= vy * vy <= MAX_SPEED * MAX_SPEED)
                by (nonlinear_arith)
                requires
                    vx * vx + vy * vy <= MAX_SPEED * MAX_SPEED,
            ;
        }
        let x = velocity.x as i128;
        let y = velocity.y as i128;
        let n = (x * x + y * y) as u128;
        let s = ceil_sqrt(n);
        proof {
            let m = norm2(velocity.x as int, velocity.y as int);
            let si = s as int;
            assert(si <= MAX_SPEED) by (nonlinear_arith)
                requires
                    si == 0 || (si - 1) * (si - 1) < m,
                    m <= MAX_SPEED * MAX_SPEED,
                    0 <= si,
            ;
            assert(si >= 3 ==> (si - 3) * (si - 3) <= m) by (nonlinear_arith)
                requires
                    si == 0 || (si - 1) * (si - 1) < m,
            ;
        }
        Ball { velocity, speed: s as i64 }
    }
}

impl Default for Ball {
    /// A ball at rest.
    fn default() -> (r: Ball)
        ensures
            r.wf(),
            r.at_rest(),
            r.speed == 0,
    {
        Ball { velocity: Vec2 { x: 0, y: 0 }, speed: 0 }
    }
}

/// A live ball: its motion and its box.
#[derive(Clone, Copy, Debug, PartialEq, Eq, Structural)]
pub struct BallEntity {
    pub ball: Ball,
    pub body: Aabb,
}

impl BallEntity {
    pub open spec fn wf(&self) -> bool {
        self.ball.wf() && self.body.wf()
    }
}

impl Ball {
    /// Puts this ball into play at `position`, with the configured ball size,
    /// in the first free slot of `balls` or in a new slot at the end. Returns
    /// the slot.
    pub fn spawn(self, balls: &mut Vec<Option<BallEntity>>, position: Vec2, config: &GameConfig) -> (r: usize)
        requires
            self.wf(),
            config.wf(),
            -MAX_COORD <= position.x <= MAX_COORD,
            -MAX_COORD <= position.y <= MAX_COORD,
        ensures
            r < final(balls)@.len(),
            r <= old(balls)@.len(),
            r == old(balls)@.len() || old(balls)@[r as int] is None,
            forall|j: int| 0 <= j < r ==> old(balls)@[j] is Some,
            final(balls)@ == (if r == old(balls)@.len() {
                old(balls)@.push(final(balls)@[r as int])
            } else {
                old(balls)@.update(r as int, final(balls)@[r as int])
            }),
            final(balls)@[r as int] == Some(
                BallEntity {
                    ball: self,
                    body: Aabb {
                        center: position,
                        half: Vec2 {
                            x: (config.ball_size.width / 2) as i64,
                            y: (config.ball_size.height / 2) as i64,
                        },
                    },
                },
            ),
    {
        let body = Aabb::from_size(position.x, position.y, config.ball_size.width, config.ball_size.height);
        let entity = BallEntity { ball: self, body };
        let mut i: usize = 0;
        while i < balls.len()
            invariant
                i <= balls@.len(),
                balls@ == old(balls)@,
                forall|j: int| 0 <= j < i ==> balls@[j] is Some,
                entity == (BallEntity {
                    ball: self,
                    body: Aabb {
                        center: position,
                        half: Vec2 {
                            x: (config.ball_size.width / 2) as i64,
                            y: (config.ball_size.height / 2) as i64,
                        },
                    },
                }),
            decreases balls@.len() - i,
        {
            if balls[i].is_none() {
                balls.set(i, Some(entity));
                return i;
            }
            i = i + 1;
        }
        balls.push(Some(entity));
        i
    }
}

/// Distance covered in `dt` microseconds at `v` units per second, rounded
/// towards zero.
pub open spec fn travel(v: int, dt: int) -> int {
    if v >= 0 {
        v * dt / MICROS_PER_SECOND as int
    } else {
        -((-v) * dt / MICROS_PER_SECOND as int)
    }
}

/// `c` held to the coordinate range.
pub open spec fn saturate(c: int) -> int {
    if c < -MAX_COORD {
        -MAX_COORD as int
    } else if c > MAX_COORD {
        MAX_COORD as int
    } else {
        c
    }
}

/// Coordinate `c` moved at `v` units per second for `dt` microseconds.
pub open spec fn advanced(c: int, v: int, dt: int) -> int {
    saturate(c + travel(v, dt))
}

fn travel_exec(v: i64, dt: u32) -> (r: i64)
    requires
        abs(v as int) <= MAX_SPEED,
    ensures
        r == travel(v as int, dt as int),
        abs(r as int) <= 0x4000_0000_0000_0000,
{
    let m: i64 = if v < 0 { -v } else { v };
    assert(m * dt <= 0x4000_0000_0000_0000) by (nonlinear_arith)
        requires
            0 <= m <= 0x4000_0000,
            dt <= 0xFFFF_FFFF,
    ;
    let d: i64 = m * (dt as i64) / MICROS_PER_SECOND;
    if v < 0 {
        -d
    } else {
        d
    }
}

fn advance_coord(c: i64, v: i64, dt: u32) -> (r: i64)
    requires
        -MAX_COORD <= c <= MAX_COORD,
        abs(v as int) <= MAX_SPEED,
    ensures
        r == advanced(c as int, v as int, dt as int),
{
    let moved = c + travel_exec(v, dt);
    if moved < -MAX_COORD {
        -MAX_COORD
    } else if moved > MAX_COORD {
        MAX_COORD
    } else {
        moved
    }
}

/// The speed bounds each velocity component.
pub proof fn lemma_component_bound(ball: Ball)
    requires
        ball.wf(),
    ensures
        abs(ball.velocity.x as int) <= ball.speed,
        abs(ball.velocity.y as int) <= ball.speed,
{
    let x = ball.velocity.x as int;
    let y = ball.velocity.y as int;
    let s = ball.speed as int;
    assert(abs(x) <= s && abs(y) <= s) by (nonlinear_arith)
        requires
            x * x + y * y <= s * s,
            0 <= s,
    ;
}

impl BallEntity {
    /// Moves the ball along its velocity for `dt` microseconds; its position
    /// is held to the coordinate range.
    pub fn advance(&mut self, dt: u32)
        requires
            old(self).wf(),
        ensures
            final(self).wf(),
            final(self).ball == old(self).ball,
            final(self).body.half == old(self).body.half,
            final(self).body.center.x == advanced(
                old(self).body.center.x as int,
                old(self).ball.velocity.x as int,
                dt as int,
            ),
            final(self).body.center.y == advanced(
                old(self).body.center.y as int,
                old(self).ball.velocity.y as int,
                dt as int,
            ),
    {
        proof {
            lemma_component_bound(self.ball);
        }
        let x = advance_coord(self.body.center.x, self.ball.velocity.x, dt);
        let y = advance_coord(self.body.center.y, self.ball.velocity.y, dt);
        self.body.center = Vec2 { x, y };
    }
}

} // verus!
