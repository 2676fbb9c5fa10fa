//! The paddle: its movement under the pointer, the ball's bounce off it, and
//! the serve.

use crate::ball::{lemma_component_bound, Ball, BallEntity};
use crate::config::GameConfig;
use crate::geometry::{collide, collision, lemma_collision_iff_overlap, Aabb, Side, Vec2};
use crate::speed::{abs, min, scale_to_speed, scaled, MAX_DIRECTION};
use vstd::prelude::*;

verus! {

/// The player's paddle.
#[derive(Clone, Copy, Debug, PartialEq, Eq, Structural)]
pub struct Paddle {
    pub body: Aabb,
}

/// How far the paddle's center may move from the middle: the paddle stays
/// within the play area.
pub open spec fn paddle_limit(config: GameConfig) -> int {
    config.play_area.width / 2 - config.paddle_starting_size.width / 2
}

pub open spec fn clamp(v: int, lo: int, hi: int) -> int {
    if v < lo {
        lo
    } else if v > hi {
        hi
    } else {
        v
    }
}

/// The paddle at the start of a round: centered, `paddle_elevation` above the
/// open bottom edge.
pub open spec fn initial_paddle(config: GameConfig) -> Paddle {
    Paddle {
        body: Aabb {
            center: Vec2 { x: 0, y: (config.paddle_elevation - config.play_area.height / 2) as i64 },
            half: Vec2 {
                x: (config.paddle_starting_size.width / 2) as i64,
                y: (config.paddle_starting_size.height / 2) as i64,
            },
        },
    }
}

impl Paddle {
    /// The paddle's box is well formed and its center lies within its limit.
    pub open spec fn wf(&self, config: GameConfig) -> bool {
        &&& self.body.wf()
        &&& -paddle_limit(config) <= self.body.center.x <= paddle_limit(config)
    }

    /// The paddle at the start of a round (see [`initial_paddle`]).
    pub fn new(config: &GameConfig) -> (r: Paddle)
        requires
            config.wf(),
        ensures
            r.wf(*config),
            r == initial_paddle(*config),
    {
        let base_line = config.paddle_elevation - config.play_area.height / 2;
        Paddle {
            body: Aabb::from_size(
                0,
                base_line,
                config.paddle_starting_size.width,
                config.paddle_starting_size.height,
            ),
        }
    }
}

/// Moves the paddle by the pointer's horizontal displacement `delta`, then
/// holds it within the play area.
pub fn paddle_movement(paddle: &mut Paddle, delta: i64, config: &GameConfig)
    requires
        config.wf(),
        old(paddle).wf(*config),
    ensures
        final(paddle).wf(*config),
        final(paddle).body.center.x == clamp(
            old(paddle).body.center.x + delta,
            -paddle_limit(*config),
            paddle_limit(*config),
        ),
        final(paddle).body.center.y == old(paddle).body.center.y,
        final(paddle).body.half == old(paddle).body.half,
        abs(final(paddle).body.center.x as int) <= paddle_limit(*config),
{
    let limit = config.play_area.width / 2 - config.paddle_starting_size.width / 2;
    let moved: i128 = paddle.body.center.x as i128 + delta as i128;
    let x: i64 = if moved < -(limit as i128) {
        -limit
    } else if moved > limit as i128 {
        limit
    } else {
        moved as i64
    };
    paddle.body.center.x = x;
}

/// The speed after one bounce off the paddle's top: raised by the increment,
/// up to the cap.
pub open spec fn bounced_speed(s: int, config: GameConfig) -> int {
    min(s + config.speed_increment, config.speed_cap as int)
}

/// The speed after `k` bounces off the paddle's top.
pub open spec fn speed_after_bounces(s: int, k: nat, config: GameConfig) -> int
    decreases k,
{
    if k == 0 {
        s
    } else {
        bounced_speed(speed_after_bounces(s, (k - 1) as nat, config), config)
    }
}

/// Across repeated paddle bounces the speed never falls and never passes the
/// cap.
pub proof fn lemma_speed_ramp(s: int, k: nat, config: GameConfig)
    requires
        config.wf(),
        0 <= s <= config.speed_cap,
    ensures
        s <= speed_after_bounces(s, k, config) <= config.speed_cap,
        speed_after_bounces(s, k, config) <= speed_after_bounces(s, k + 1, config),
    decreases k,
{
    if k > 0 {
        lemma_speed_ramp(s, (k - 1) as nat, config);
    }
}

/// The ball's motion after striking the paddle's `side`, the ball's center
/// being at `ball_x` and the paddle's at `paddle_x`.
///
/// Off the top the ball is sent up and steered sideways by twice its offset
/// from the paddle's center, and its speed is raised (see [`bounced_speed`])
/// and given to the new direction. Off either end its horizontal velocity is
/// reversed. The paddle's underside cannot be struck by a ball that moved in
/// from above; should it be, the ball passes through unchanged.
pub open spec fn paddle_bounce(ball: Ball, ball_x: int, paddle_x: int, side: Side, config: GameConfig) -> Ball {
    match side {
        Side::Top => {
            let s = bounced_speed(ball.speed as int, config);
            let v = scaled(
                ball.velocity.x + 2 * (ball_x - paddle_x),
                abs(ball.velocity.y as int),
                s,
            );
            Ball { velocity: Vec2 { x: v.0 as i64, y: v.1 as i64 }, speed: s as i64 }
        },
        Side::Bottom => ball,
        Side::Left | Side::Right => Ball {
            velocity: Vec2 { x: (-ball.velocity.x) as i64, y: ball.velocity.y },
            speed: ball.speed,
        },
    }
}

/// The ball after resolving its contact with the paddle, if any.
pub open spec fn after_paddle(e: BallEntity, paddle: Paddle, config: GameConfig) -> BallEntity {
    match collision(e.body, paddle.body) {
        Some(side) => BallEntity {
            ball: paddle_bounce(e.ball, e.body.center.x as int, paddle.body.center.x as int, side, config),
            body: e.body,
        },
        None => e,
    }
}

/// Bounces the ball off the paddle if they overlap; returns the side struck.
pub fn ball_paddle_collision(entity: &mut BallEntity, paddle: &Paddle, config: &GameConfig) -> (r: Option<Side>)
    requires
        config.wf(),
        old(entity).wf(),
        paddle.wf(*config),
    ensures
        r == collision(old(entity).body, paddle.body),
        *final(entity) == after_paddle(*old(entity), *paddle, *config),
        final(entity).wf(),
        old(entity).ball.speed <= config.speed_cap ==> old(entity).ball.speed <= final(entity).ball.speed
            <= config.speed_cap,
        r == Some(Side::Top) ==> final(entity).ball.speed == bounced_speed(old(entity).ball.speed as int, *config),
{
    let hit = collide(&entity.body, &paddle.body);
    proof {
        lemma_collision_iff_overlap(entity.body, paddle.body);
        lemma_component_bound(entity.ball);
    }
    match hit {
        Some(Side::Top) => {
            let v = entity.ball.velocity;
            let raised = entity.ball.speed + config.speed_increment;
            let s = if raised < config.speed_cap { raised } else { config.speed_cap };
            let vy = if v.y < 0 { -v.y } else { v.y };
            let steer = Vec2 { x: v.x + 2 * (entity.body.center.x - paddle.body.center.x), y: vy };
            assert(abs(steer.x as int) <= MAX_DIRECTION);
            let velocity = scale_to_speed(steer, s);
            entity.ball = Ball { velocity, speed: s };
        },
        Some(Side::Left) | Some(Side::Right) => {
            let v = entity.ball.velocity;
            let nx: i64 = -v.x;
            assert(nx * nx == v.x * v.x) by (nonlinear_arith)
                requires
                    nx == -v.x,
            ;
            entity.ball.velocity = Vec2 { x: nx, y: v.y };
        },
        Some(Side::Bottom) => {},
        None => {},
    }
    hit
}

/// The ball's motion after a serve from a paddle centered at `paddle_x`: a
/// ball at rest is sent at the starting speed along `(-paddle_x, paddle
/// width)`, up and away from the paddle's offset; a moving ball is unchanged.
pub open spec fn launched(ball: Ball, paddle_x: int, config: GameConfig) -> Ball {
    if ball.at_rest() {
        let s = config.ball_starting_speed as int;
        let v = scaled(-paddle_x, config.paddle_starting_size.width as int, s);
        Ball { velocity: Vec2 { x: v.0 as i64, y: v.1 as i64 }, speed: s as i64 }
    } else {
        ball
    }
}

/// Serves a ball at rest from a paddle centered at `paddle_x`.
pub fn start_ball(ball: &mut Ball, paddle_x: i64, config: &GameConfig)
    requires
        config.wf(),
        old(ball).wf(),
        abs(paddle_x as int) <= MAX_DIRECTION,
    ensures
        *final(ball) == launched(*old(ball), paddle_x as int, *config),
        final(ball).wf(),
{
    if ball.velocity.x == 0 && ball.velocity.y == 0 {
        *ball = Ball::with_default_speed(Vec2 { x: -paddle_x, y: config.paddle_starting_size.width }, config);
    }
}

} // verus!
