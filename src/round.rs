//! A round: the arena of paddle, walls, bricks and balls, and the tick that
//! advances it.

use crate::ball::{advanced, Ball, BallEntity};
use crate::bricks::{
    after_bricks, brick_box, brick_collision, brick_count, bricks_per_row, bricks_wf, bricks_worn,
    lemma_bricks_worn_trans, roll_lives, setup_bricks, Brick, BRICK_TIERS,
};
use crate::config::GameConfig;
use crate::geometry::{Aabb, Vec2};
use crate::paddle::{
    after_paddle, ball_paddle_collision, clamp, initial_paddle, launched, paddle_limit,
    paddle_movement, start_ball, Paddle,
};
use crate::speed::{abs, MAX_DIRECTION};
use crate::walls::{after_walls, ball_wall_collision, setup_walls, walls_of};
use vstd::prelude::*;

verus! {

/// What the outside world reports for one tick.
#[derive(Clone, Copy, Debug, PartialEq, Eq, Structural)]
pub struct TickInput {
    /// Horizontal pointer displacement since the last tick, in units.
    pub pointer_dx: i64,
    /// The serve trigger was pressed during this tick.
    pub launch: bool,
    /// Time elapsed since the last tick, in microseconds.
    pub elapsed_micros: u32,
}

/// What a tick tells the outside world.
#[derive(Clone, Copy, Debug, PartialEq, Eq, Structural)]
pub struct TickReport {
    /// No ball is left in play: the round is over.
    pub round_over: bool,
}

/// Every ball in play is well formed and no faster than the cap.
pub open spec fn balls_wf(balls: Seq<Option<BallEntity>>, config: GameConfig) -> bool {
    forall|j: int|
        0 <= j < balls.len() ==> match #[trigger] balls[j] {
            Some(e) => e.wf() && e.ball.speed <= config.speed_cap,
            None => true,
        }
}

/// No ball is in play.
pub open spec fn no_live_balls(balls: Seq<Option<BallEntity>>) -> bool {
    forall|j: int| 0 <= j < balls.len() ==> (#[trigger] balls[j]) is None
}

/// The paddle after following the pointer.
pub open spec fn moved_paddle(paddle: Option<Paddle>, dx: int, config: GameConfig) -> Option<Paddle> {
    match paddle {
        Some(p) => Some(
            Paddle {
                body: Aabb {
                    center: Vec2 {
                        x: clamp(p.body.center.x + dx, -paddle_limit(config), paddle_limit(config)) as i64,
                        y: p.body.center.y,
                    },
                    half: p.body.half,
                },
            },
        ),
        None => None,
    }
}

/// Where a serve starts from: the paddle's center, or the middle without one.
pub open spec fn serve_x(paddle: Option<Paddle>) -> int {
    match paddle {
        Some(p) => p.body.center.x as int,
        None => 0,
    }
}

/// A ball slot after the serve trigger (if pressed) and the motion of one
/// tick; a ball whose center ends below the open bottom edge leaves play.
pub open spec fn moved_ball(slot: Option<BallEntity>, input: TickInput, paddle_x: int, config: GameConfig) -> Option<BallEntity> {
    match slot {
        Some(e) => {
            let ball = if input.launch {
                launched(e.ball, paddle_x, config)
            } else {
                e.ball
            };
            let dt = input.elapsed_micros as int;
            let center = Vec2 {
                x: advanced(e.body.center.x as int, ball.velocity.x as int, dt) as i64,
                y: advanced(e.body.center.y as int, ball.velocity.y as int, dt) as i64,
            };
            if center.y < -(config.play_area.height / 2) {
                None
            } else {
                Some(BallEntity { ball, body: Aabb { center, half: e.body.half } })
            }
        },
        None => None,
    }
}

/// One ball's collisions within a tick, in order: walls, paddle, bricks.
pub open spec fn resolve_ball(
    e: BallEntity,
    walls: Seq<Aabb>,
    paddle: Option<Paddle>,
    bricks: Seq<Option<Brick>>,
    config: GameConfig,
) -> (BallEntity, Seq<Option<Brick>>) {
    let e1 = after_walls(e, walls);
    let e2 = match paddle {
        Some(p) => after_paddle(e1, p, config),
        None => e1,
    };
    after_bricks(e2, bricks)
}

/// The balls and bricks after the collisions of the first `k` ball slots,
/// taken in slot order, each ball meeting the bricks as the ones before it
/// left them.
pub open spec fn resolve_prefix(
    balls: Seq<Option<BallEntity>>,
    bricks: Seq<Option<Brick>>,
    walls: Seq<Aabb>,
    paddle: Option<Paddle>,
    config: GameConfig,
    k: nat,
) -> (Seq<Option<BallEntity>>, Seq<Option<Brick>>)
    decreases k,
{
    if k == 0 {
        (balls, bricks)
    } else {
        let prev = resolve_prefix(balls, bricks, walls, paddle, config, (k - 1) as nat);
        match prev.0[k - 1] {
            Some(e) => {
                let r = resolve_ball(e, walls, paddle, prev.1, config);
                (prev.0.update(k - 1, Some(r.0)), r.1)
            },
            None => prev,
        }
    }
}

/// The balls after the serve and the motion of one tick.
pub open spec fn moved_balls(balls: Seq<Option<BallEntity>>, input: TickInput, paddle_x: int, config: GameConfig) -> Seq<Option<BallEntity>> {
    Seq::new(balls.len(), |j: int| moved_ball(balls[j], input, paddle_x, config))
}

/// The box of the ball at rest on top of the paddle at the start of a round.
pub open spec fn resting_ball_box(config: GameConfig) -> Aabb {
    let paddle = initial_paddle(config);
    Aabb {
        center: Vec2 {
            x: 0,
            y: (paddle.body.center.y + config.paddle_starting_size.height / 2 + config.ball_size.height / 2) as i64,
        },
        half: Vec2 { x: (config.ball_size.width / 2) as i64, y: (config.ball_size.height / 2) as i64 },
    }
}

/// A fresh round (see [`Round::new`]) whose bricks get lives drawn at random
/// below [`BRICK_TIERS`].
pub fn setup_board(config: &GameConfig) -> (r: Round)
    requires
        config.wf(),
        brick_count(*config) <= usize::MAX,
    ensures
        r.wf(),
        r.config == *config,
        r.paddle == Some(initial_paddle(*config)),
        r.walls@ == walls_of(*config),
        r.balls@ == seq![Some(BallEntity { ball: Ball { velocity: Vec2 { x: 0, y: 0 }, speed: 0 }, body: resting_ball_box(*config) })],
        r.bricks@.len() == brick_count(*config),
        forall|k: int|
            0 <= k < r.bricks@.len() ==> (#[trigger] r.bricks@[k]) is Some && r.bricks@[k].unwrap().life < BRICK_TIERS
                && r.bricks@[k].unwrap().body == brick_box(*config, k / bricks_per_row(*config), k % bricks_per_row(*config)),
{
    let per_row = config.play_area.width / config.brick_size.width;
    proof {
        assert(0 <= per_row <= config.play_area.width) by (nonlinear_arith)
            requires
                per_row == config.play_area.width / config.brick_size.width,
                0 < config.brick_size.width,
                0 < config.play_area.width,
        ;
        assert(0 <= config.brick_rows * per_row <= 1024 * 0x1000_0000) by (nonlinear_arith)
            requires
                0 <= per_row <= 0x1000_0000,
                0 <= config.brick_rows <= 1024,
        ;
    }
    let count = (config.brick_rows * per_row) as usize;
    let lives = roll_lives(count);
    let round = Round::new(config, &lives);
    assert forall|k: int| 0 <= k < round.bricks@.len() implies (#[trigger] round.bricks@[k]) is Some && round.bricks@[k].unwrap().life < BRICK_TIERS
        && round.bricks@[k].unwrap().body == brick_box(*config, k / bricks_per_row(*config), k % bricks_per_row(*config)) by {
        assert(lives@[k] < BRICK_TIERS);
    }
    round
}

/// The entities of a round. Destroyed bricks and balls leave their slots
/// empty, so a slot always names the same entity.
pub struct Round {
    pub config: GameConfig,
    pub paddle: Option<Paddle>,
    pub walls: Vec<Aabb>,
    pub bricks: Vec<Option<Brick>>,
    pub balls: Vec<Option<BallEntity>>,
}

impl Round {
    pub open spec fn wf(&self) -> bool {
        &&& self.config.wf()
        &&& match self.paddle {
            Some(p) => p.wf(self.config),
            None => true,
        }
        &&& forall|j: int| 0 <= j < self.walls@.len() ==> (#[trigger] self.walls@[j]).wf()
        &&& bricks_wf(self.bricks@)
        &&& balls_wf(self.balls@, self.config)
    }

    /// The round at its start: the walls, the centered paddle, one ball at
    /// rest on top of it, and the brick grid with the given lives.
    pub fn new(config: &GameConfig, lives: &Vec<u32>) -> (r: Round)
        requires
            config.wf(),
            lives@.len() == brick_count(*config),
        ensures
            r.wf(),
            r.config == *config,
            r.paddle == Some(initial_paddle(*config)),
            r.walls@ == walls_of(*config),
            r.balls@ == seq![Some(BallEntity { ball: Ball { velocity: Vec2 { x: 0, y: 0 }, speed: 0 }, body: resting_ball_box(*config) })],
            r.bricks@.len() == lives@.len(),
            forall|k: int|
                0 <= k < lives@.len() ==> #[trigger] r.bricks@[k] == Some(
                    Brick {
                        life: lives@[k],
                        body: brick_box(*config, k / bricks_per_row(*config), k % bricks_per_row(*config)),
                    },
                ),
    {
        let paddle = Paddle::new(config);
        let walls = setup_walls(config);
        let bricks = setup_bricks(config, lives);
        let mut balls: Vec<Option<BallEntity>> = Vec::new();
        let start_y = paddle.body.center.y + config.paddle_starting_size.height / 2 + config.ball_size.height / 2;
        let ball: Ball = Ball::default();
        ball.spawn(&mut balls, Vec2 { x: 0, y: start_y }, config);
        assert(balls@ =~= seq![Some(BallEntity { ball: Ball { velocity: Vec2 { x: 0, y: 0 }, speed: 0 }, body: resting_ball_box(*config) })]);
        Round { config: *config, paddle: Some(paddle), walls, bricks, balls }
    }

    /// Whether any ball is still in play.
    pub fn has_live_balls(&self) -> (r: bool)
        ensures
            r == !no_live_balls(self.balls@),
    {
        let mut i: usize = 0;
        while i < self.balls.len()
            invariant
                i <= self.balls@.len(),
                forall|j: int| 0 <= j < i ==> (#[trigger] self.balls@[j]) is None,
            decreases self.balls@.len() - i,
        {
            if self.balls[i].is_some() {
                return true;
            }
            i = i + 1;
        }
        false
    }

    /// Advances the round by one tick: the paddle follows the pointer, a
    /// pressed trigger serves the balls at rest, the balls move and those
    /// below the open bottom edge leave play, then each remaining ball in slot
    /// order bounces off the first wall it overlaps, off the paddle, and off
    /// the first brick it overlaps, which takes the hit.
    pub fn tick(&mut self, input: &TickInput) -> (r: TickReport)
        requires
            old(self).wf(),
        ensures
            final(self).wf(),
            final(self).config == old(self).config,
            final(self).walls@ == old(self).walls@,
            final(self).paddle == moved_paddle(old(self).paddle, input.pointer_dx as int, old(self).config),
            (final(self).balls@, final(self).bricks@) == resolve_prefix(
                moved_balls(old(self).balls@, *input, serve_x(final(self).paddle), old(self).config),
                old(self).bricks@,
                old(self).walls@,
                final(self).paddle,
                old(self).config,
                old(self).balls@.len() as nat,
            ),
            bricks_worn(old(self).bricks@, final(self).bricks@),
            r.round_over == no_live_balls(final(self).balls@),
    {
        match self.paddle {
            Some(p) => {
                let mut moved = p;
                paddle_movement(&mut moved, input.pointer_dx, &self.config);
                self.paddle = Some(moved);
            },
            None => {},
        }
        let paddle_x: i64 = match self.paddle {
            Some(p) => p.body.center.x,
            None => 0,
        };
        let ghost config = self.config;
        let ghost before = self.balls@;
        assert(abs(paddle_x as int) <= MAX_DIRECTION);
        let mut i: usize = 0;
        while i < self.balls.len()
            invariant
                self.config == config,
                config.wf(),
                self.paddle == moved_paddle(old(self).paddle, input.pointer_dx as int, config),
                paddle_x == serve_x(self.paddle),
                abs(paddle_x as int) <= MAX_DIRECTION,
                self.walls@ == old(self).walls@,
                self.bricks@ == old(self).bricks@,
                before == old(self).balls@,
                self.balls@.len() == before.len(),
                i <= self.balls@.len(),
                forall|j: int| 0 <= j < i ==> self.balls@[j] == moved_ball(#[trigger] before[j], *input, paddle_x as int, config),
                forall|j: int| i <= j < before.len() ==> self.balls@[j] == #[trigger] before[j],
                balls_wf(before, config),
                balls_wf(self.balls@, config),
            decreases self.balls@.len() - i,
        {
            let slot = self.balls[i];
            match slot {
                Some(e) => {
                    assert(e.wf() && e.ball.speed <= config.speed_cap) by {
                        assert(before[i as int] == slot);
                    }
                    let mut e2 = e;
                    if input.launch {
                        start_ball(&mut e2.ball, paddle_x, &self.config);
                    }
                    e2.advance(input.elapsed_micros);
                    let next: Option<BallEntity> = if e2.body.center.y < -(self.config.play_area.height / 2) {
                        None
                    } else {
                        Some(e2)
                    };
                    let ghost prev = self.balls@;
                    self.balls.set(i, next);
                    proof {
                        assert forall|j: int| 0 <= j < self.balls@.len() implies match #[trigger] self.balls@[j] {
                            Some(e) => e.wf() && e.ball.speed <= config.speed_cap,
                            None => true,
                        } by {
                            if j != i {
                                assert(self.balls@[j] == prev[j]);
                            }
                        }
                    }
                },
                None => {},
            }
            i = i + 1;
        }
        let ghost moved = self.balls@;
        assert(moved =~= moved_balls(before, *input, paddle_x as int, config));
        let ghost bricks0 = self.bricks@;
        let mut i: usize = 0;
        while i < self.balls.len()
            invariant
                self.config == config,
                config.wf(),
                self.paddle == moved_paddle(old(self).paddle, input.pointer_dx as int, config),
                match self.paddle {
                    Some(p) => p.wf(config),
                    None => true,
                },
                self.walls@ == old(self).walls@,
                forall|j: int| 0 <= j < self.walls@.len() ==> (#[trigger] self.walls@[j]).wf(),
                bricks0 == old(self).bricks@,
                self.balls@.len() == moved.len(),
                i <= self.balls@.len(),
                (self.balls@, self.bricks@) == resolve_prefix(moved, bricks0, self.walls@, self.paddle, config, i as nat),
                forall|j: int| i <= j < moved.len() ==> self.balls@[j] == #[trigger] moved[j],
                bricks_worn(bricks0, self.bricks@),
                bricks_wf(self.bricks@),
                balls_wf(self.balls@, config),
            decreases self.balls@.len() - i,
        {
            let slot = self.balls[i];
            match slot {
                Some(e) => {
                    let mut e2 = e;
                    ball_wall_collision(&mut e2, &self.walls);
                    match self.paddle {
                        Some(p) => {
                            ball_paddle_collision(&mut e2, &p, &self.config);
                        },
                        None => {},
                    }
                    let ghost bricks_prev = self.bricks@;
                    brick_collision(&mut e2, &mut self.bricks);
                    proof {
                        lemma_bricks_worn_trans(bricks0, bricks_prev, self.bricks@);
                    }
                    let ghost prev = self.balls@;
                    self.balls.set(i, Some(e2));
                    proof {
                        assert forall|j: int| 0 <= j < self.balls@.len() implies match #[trigger] self.balls@[j] {
                            Some(e) => e.wf() && e.ball.speed <= config.speed_cap,
                            None => true,
                        } by {
                            if j != i {
                                assert(self.balls@[j] == prev[j]);
                            }
                        }
                    }
                },
                None => {},
            }
            i = i + 1;
        }
        let live = self.has_live_balls();
        TickReport { round_over: !live }
    }
}

} // verus!
