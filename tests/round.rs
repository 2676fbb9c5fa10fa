use breakout::ball::{Ball, BallEntity};
use breakout::config::GameConfig;
use breakout::flow::{ends_round, next_state, starts_round, FlowEvent, GameState};
use breakout::geometry::{Aabb, Vec2};
use breakout::round::{setup_board, Round, TickInput};

fn quiet(dt: u32) -> TickInput {
    TickInput { pointer_dx: 0, launch: false, elapsed_micros: dt }
}

#[test]
fn new_round_has_everything_in_place() {
    let config = GameConfig::standard();
    let lives = vec![1u32; 150];
    let round = Round::new(&config, &lives);
    assert_eq!(round.walls.len(), 3);
    assert_eq!(round.bricks.len(), 150);
    assert!(round.bricks.iter().all(|b| b.map(|b| b.life) == Some(1)));
    let paddle = round.paddle.unwrap();
    assert_eq!(paddle.body, Aabb::from_size(0, -350_000, 140_000, 20_000));
    assert_eq!(round.balls.len(), 1);
    let ball = round.balls[0].unwrap();
    assert_eq!(ball.ball, Ball::default());
    assert_eq!(ball.body, Aabb::from_size(0, -333_000, 14_000, 14_000));
    assert!(round.has_live_balls());
}

#[test]
fn setup_board_draws_lives_below_three() {
    let config = GameConfig::standard();
    let round = setup_board(&config);
    assert_eq!(round.bricks.len(), 150);
    assert!(round.bricks.iter().all(|b| b.map_or(false, |b| b.life < 3)));
}

#[test]
fn resting_ball_does_not_touch_paddle() {
    let config = GameConfig::standard();
    let mut round = Round::new(&config, &vec![0u32; 150]);
    let report = round.tick(&quiet(16_667));
    assert!(!report.round_over);
    assert_eq!(round.balls[0].unwrap().ball, Ball::default());
    assert_eq!(round.balls[0].unwrap().body.center, Vec2::new(0, -333_000));
}

#[test]
fn launch_from_centered_paddle_serves_straight_up() {
    let config = GameConfig::standard();
    let mut round = Round::new(&config, &vec![0u32; 150]);
    round.tick(&TickInput { pointer_dx: 0, launch: true, elapsed_micros: 10_000 });
    let ball = round.balls[0].unwrap();
    assert_eq!(ball.ball.velocity, Vec2::new(0, 300_000));
    assert_eq!(ball.ball.speed, 300_000);
    assert_eq!(ball.body.center, Vec2::new(0, -330_000));
}

#[test]
fn launch_uses_paddle_position_after_it_moves() {
    let config = GameConfig::standard();
    let mut round = Round::new(&config, &vec![0u32; 150]);
    round.tick(&TickInput { pointer_dx: 140_000, launch: true, elapsed_micros: 0 });
    assert_eq!(round.paddle.unwrap().body.center.x, 140_000);
    assert_eq!(round.balls[0].unwrap().ball.velocity, Vec2::new(-212_132, 212_132));
}

#[test]
fn tick_clamps_paddle() {
    let config = GameConfig::standard();
    let mut round = Round::new(&config, &vec![0u32; 150]);
    round.tick(&TickInput { pointer_dx: -10_000_000, launch: false, elapsed_micros: 0 });
    assert_eq!(round.paddle.unwrap().body.center.x, -230_000);
}

#[test]
fn last_ball_below_bottom_ends_round() {
    let config = GameConfig::standard();
    let mut round = Round::new(&config, &vec![0u32; 150]);
    round.balls[0] = Some(BallEntity {
        ball: Ball::new(Vec2::new(0, -300_000)),
        body: Aabb::from_size(200_000, -399_000, 14_000, 14_000),
    });
    let report = round.tick(&quiet(16_667));
    assert_eq!(round.balls[0], None);
    assert!(!round.has_live_balls());
    assert!(report.round_over);
    assert_eq!(next_state(GameState::Game, FlowEvent::BallsGone), GameState::GameOver);
}

#[test]
fn ball_just_above_bottom_stays_in_play() {
    let config = GameConfig::standard();
    let mut round = Round::new(&config, &vec![0u32; 150]);
    round.balls[0] = Some(BallEntity {
        ball: Ball::new(Vec2::new(0, -300_000)),
        body: Aabb::from_size(200_000, -395_000, 14_000, 14_000),
    });
    let report = round.tick(&quiet(16_667));
    assert_eq!(round.balls[0].unwrap().body.center.y, -400_000);
    assert!(!report.round_over);
}

#[test]
fn tick_damages_brick_in_ball_path() {
    let config = GameConfig::standard();
    let mut lives = vec![0u32; 150];
    lives[7] = 2;
    let mut round = Round::new(&config, &lives);
    // Just below brick 7 of the top row (center (0, 390 000)), moving up.
    round.balls[0] = Some(BallEntity {
        ball: Ball::new(Vec2::new(0, 300_000)),
        body: Aabb::from_size(0, 370_000, 14_000, 14_000),
    });
    round.tick(&quiet(16_667));
    assert_eq!(round.bricks[7].unwrap().life, 1);
    let ball = round.balls[0].unwrap();
    assert_eq!(ball.body.center, Vec2::new(0, 375_000));
    assert_eq!(ball.ball.velocity, Vec2::new(0, -300_000));
    // The bricks beside it are untouched.
    assert!(round.bricks.iter().enumerate().all(|(k, b)| k == 7 || *b == Round::new(&config, &lives).bricks[k]));
}

#[test]
fn destroyed_brick_never_returns() {
    let config = GameConfig::standard();
    let mut round = Round::new(&config, &vec![0u32; 150]);
    round.balls[0] = Some(BallEntity {
        ball: Ball::new(Vec2::new(0, 300_000)),
        body: Aabb::from_size(0, 370_000, 14_000, 14_000),
    });
    round.tick(&quiet(16_667));
    assert_eq!(round.bricks[7], None);
    for _ in 0..200 {
        round.tick(&quiet(16_667));
        assert_eq!(round.bricks[7], None);
    }
}

#[test]
fn ball_stays_inside_walls_over_many_ticks() {
    let config = GameConfig::standard();
    let mut round = Round::new(&config, &vec![0u32; 150]);
    round.bricks.clear();
    round.balls[0] = Some(BallEntity {
        ball: Ball::new(Vec2::new(900_000, 400_000)),
        body: Aabb::from_size(0, 0, 14_000, 14_000),
    });
    for _ in 0..2_000 {
        round.tick(&quiet(16_667));
        if let Some(b) = round.balls[0] {
            // One step covers at most 900 000 * 16 667 / 10^6 units.
            assert!(b.body.center.x.abs() <= 300_000 + 15_001);
        }
    }
}

#[test]
fn flow_moves_between_screens() {
    assert_eq!(next_state(GameState::Loading, FlowEvent::AssetsLoaded), GameState::Menu);
    assert_eq!(next_state(GameState::Menu, FlowEvent::PlayClicked), GameState::Game);
    assert_eq!(next_state(GameState::Game, FlowEvent::SpacePressed), GameState::Pause);
    assert_eq!(next_state(GameState::Pause, FlowEvent::SpacePressed), GameState::Game);
    assert_eq!(next_state(GameState::Game, FlowEvent::EscapePressed), GameState::Menu);
    assert_eq!(next_state(GameState::Pause, FlowEvent::EscapePressed), GameState::Menu);
    assert_eq!(next_state(GameState::GameOver, FlowEvent::EscapePressed), GameState::Menu);
    assert_eq!(next_state(GameState::GameOver, FlowEvent::SpacePressed), GameState::GameOver);
    assert_eq!(next_state(GameState::Menu, FlowEvent::EscapePressed), GameState::Menu);
    assert_eq!(next_state(GameState::Pause, FlowEvent::BallsGone), GameState::Pause);
    assert_eq!(next_state(GameState::Loading, FlowEvent::PlayClicked), GameState::Loading);
}

#[test]
fn rounds_start_from_menu_and_end_on_leaving() {
    assert!(starts_round(GameState::Menu, GameState::Game));
    assert!(!starts_round(GameState::Pause, GameState::Game));
    assert!(ends_round(GameState::GameOver, GameState::Menu));
    assert!(ends_round(GameState::Pause, GameState::Menu));
    assert!(!ends_round(GameState::Game, GameState::Pause));
    assert!(!ends_round(GameState::Game, GameState::GameOver));
}
