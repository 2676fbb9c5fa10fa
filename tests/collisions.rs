use breakout::ball::{Ball, BallEntity};
use breakout::bricks::{brick_collision, roll_lives, setup_bricks, Brick, BRICK_TIERS};
use breakout::config::GameConfig;
use breakout::geometry::{Aabb, Side, Vec2};
use breakout::paddle::{ball_paddle_collision, paddle_movement, start_ball, Paddle};
use breakout::walls::{ball_wall_collision, setup_walls};

fn ball_at(x: i64, y: i64, vx: i64, vy: i64) -> BallEntity {
    BallEntity {
        ball: Ball::new(Vec2::new(vx, vy)),
        body: Aabb { center: Vec2::new(x, y), half: Vec2::new(7_000, 7_000) },
    }
}

#[test]
fn paddle_follows_pointer_within_limits() {
    let config = GameConfig::standard();
    let mut paddle = Paddle::new(&config);
    paddle_movement(&mut paddle, 12_345, &config);
    assert_eq!(paddle.body.center.x, 12_345);
    paddle_movement(&mut paddle, -2_345, &config);
    assert_eq!(paddle.body.center.x, 10_000);
}

#[test]
fn paddle_is_clamped_for_any_delta() {
    let config = GameConfig::standard();
    let limit = 300_000 - 70_000;
    for &delta in &[i64::MAX, i64::MIN, 1_000_000, -1_000_000, 230_001, -230_001, 0] {
        let mut paddle = Paddle::new(&config);
        paddle_movement(&mut paddle, delta, &config);
        assert!(paddle.body.center.x.abs() <= limit);
        assert_eq!(paddle.body.center.y, -350_000);
    }
    let mut paddle = Paddle::new(&config);
    paddle_movement(&mut paddle, i64::MAX, &config);
    assert_eq!(paddle.body.center.x, limit);
    paddle_movement(&mut paddle, i64::MIN, &config);
    assert_eq!(paddle.body.center.x, -limit);
}

#[test]
fn serve_from_centered_paddle_goes_straight_up() {
    let config = GameConfig::standard();
    let mut ball = Ball::default();
    start_ball(&mut ball, 0, &config);
    assert_eq!(ball.velocity, Vec2::new(0, 300_000));
    assert_eq!(ball.speed, 300_000);
}

#[test]
fn serve_leans_away_from_paddle_offset() {
    let config = GameConfig::standard();
    let mut ball = Ball::default();
    start_ball(&mut ball, 140_000, &config);
    assert_eq!(ball.velocity, Vec2::new(-212_132, 212_132));
    assert_eq!(ball.speed, 300_000);
}

#[test]
fn serve_leaves_a_moving_ball_alone() {
    let config = GameConfig::standard();
    let mut ball = Ball::new(Vec2::new(3, 4));
    start_ball(&mut ball, 0, &config);
    assert_eq!(ball.velocity, Vec2::new(3, 4));
    assert_eq!(ball.speed, 5);
}

#[test]
fn paddle_top_bounce_sends_ball_up_faster() {
    let config = GameConfig::standard();
    let paddle = Paddle::new(&config);
    // Ball centered over the paddle, reaching 2 000 units into its top.
    let mut e = ball_at(0, -350_000 + 10_000 + 5_000, 0, -300_000);
    assert_eq!(ball_paddle_collision(&mut e, &paddle, &config), Some(Side::Top));
    assert_eq!(e.ball.speed, 320_000);
    assert_eq!(e.ball.velocity, Vec2::new(0, 320_000));
}

#[test]
fn paddle_top_bounce_steers_by_offset() {
    let config = GameConfig::standard();
    let paddle = Paddle::new(&config);
    let mut e = ball_at(35_000, -350_000 + 10_000 + 5_000, 100_000, -300_000);
    assert_eq!(e.ball.speed, 316_228);
    assert_eq!(ball_paddle_collision(&mut e, &paddle, &config), Some(Side::Top));
    assert_eq!(e.ball.speed, 336_228);
    assert_eq!(e.ball.velocity, Vec2::new(165_764, 292_525));
}

#[test]
fn paddle_bounces_keep_speed_consistent_and_capped() {
    let config = GameConfig::standard();
    let paddle = Paddle::new(&config);
    let mut e = ball_at(20_000, -350_000 + 10_000 + 5_000, -50_000, -300_000);
    let mut last = e.ball.speed;
    for _ in 0..100 {
        e.ball.velocity.y = -e.ball.velocity.y.abs();
        assert_eq!(ball_paddle_collision(&mut e, &paddle, &config), Some(Side::Top));
        let s = e.ball.speed as i128;
        let n = (e.ball.velocity.x as i128).pow(2) + (e.ball.velocity.y as i128).pow(2);
        assert!(n <= s * s && n >= (s - 3) * (s - 3));
        assert!(e.ball.speed >= last);
        assert!(e.ball.speed <= 1_600_000);
        last = e.ball.speed;
    }
    assert_eq!(last, 1_600_000);
}

#[test]
fn paddle_end_bounce_reverses_horizontal_velocity() {
    let config = GameConfig::standard();
    let paddle = Paddle::new(&config);
    // Ball against the paddle's left end, within its height.
    let mut e = ball_at(-70_000 - 5_000, -350_000, 300_000, 0);
    e.body.half = Vec2::new(7_000, 2_000);
    assert_eq!(ball_paddle_collision(&mut e, &paddle, &config), Some(Side::Left));
    assert_eq!(e.ball.velocity, Vec2::new(-300_000, 0));
    assert_eq!(e.ball.speed, 300_000);
}

#[test]
fn paddle_underside_hit_is_ignored() {
    let config = GameConfig::standard();
    let paddle = Paddle::new(&config);
    let mut e = ball_at(0, -350_000 - 10_000 - 5_000, 0, 300_000);
    let before = e;
    assert_eq!(ball_paddle_collision(&mut e, &paddle, &config), Some(Side::Bottom));
    assert_eq!(e, before);
}

#[test]
fn walls_surround_play_area() {
    let config = GameConfig::standard();
    let walls = setup_walls(&config);
    assert_eq!(walls.len(), 3);
    assert_eq!(walls[0], Aabb::from_size(-307_000, 0, 14_000, 828_000));
    assert_eq!(walls[1], Aabb::from_size(307_000, 0, 14_000, 828_000));
    assert_eq!(walls[2], Aabb::from_size(0, 407_000, 628_000, 14_000));
}

#[test]
fn right_wall_sends_ball_left() {
    let config = GameConfig::standard();
    let walls = setup_walls(&config);
    let mut e = ball_at(300_000 - 5_000, 0, 200_000, 100_000);
    assert_eq!(ball_wall_collision(&mut e, &walls), Some(1));
    assert_eq!(e.ball.velocity, Vec2::new(-200_000, 100_000));
    // Already heading back: stays heading back.
    assert_eq!(ball_wall_collision(&mut e, &walls), Some(1));
    assert_eq!(e.ball.velocity, Vec2::new(-200_000, 100_000));
}

#[test]
fn left_wall_sends_ball_right() {
    let config = GameConfig::standard();
    let walls = setup_walls(&config);
    let mut e = ball_at(-300_000 + 5_000, 0, -200_000, 100_000);
    assert_eq!(ball_wall_collision(&mut e, &walls), Some(0));
    assert_eq!(e.ball.velocity, Vec2::new(200_000, 100_000));
}

#[test]
fn top_wall_sends_ball_down() {
    let config = GameConfig::standard();
    let walls = setup_walls(&config);
    let mut e = ball_at(0, 400_000 - 5_000, 100_000, 200_000);
    assert_eq!(ball_wall_collision(&mut e, &walls), Some(2));
    assert_eq!(e.ball.velocity, Vec2::new(100_000, -200_000));
}

#[test]
fn ball_inside_area_meets_no_wall() {
    let config = GameConfig::standard();
    let walls = setup_walls(&config);
    let mut e = ball_at(0, 0, 100_000, 200_000);
    let before = e;
    assert_eq!(ball_wall_collision(&mut e, &walls), None);
    assert_eq!(e, before);
}

#[test]
fn ball_striking_brick_left_side_turns_back() {
    let mut e = ball_at(-10, 0, 5, 0);
    e.body.half = Vec2::new(7, 7);
    let mut bricks = vec![Some(Brick { life: 1, body: Aabb { center: Vec2::new(0, 0), half: Vec2::new(5, 10) } })];
    assert_eq!(brick_collision(&mut e, &mut bricks), Some(0));
    assert_eq!(e.ball.velocity, Vec2::new(-5, 0));
    assert_eq!(e.ball.speed, 5);
}

#[test]
fn brick_bounces_push_away_from_each_side() {
    let brick = Brick { life: 2, body: Aabb::from_size(0, 0, 40_000, 20_000) };
    for &(x, y, vx, vy, wx, wy) in &[
        (-24_000i64, 0i64, 3_000i64, 4_000i64, -3_000i64, 4_000i64),
        (24_000, 0, -3_000, 4_000, 3_000, 4_000),
        (0, 14_000, 3_000, -4_000, 3_000, 4_000),
        (0, -14_000, 3_000, 4_000, 3_000, -4_000),
    ] {
        let mut e = ball_at(x, y, vx, vy);
        let mut bricks = vec![Some(brick)];
        assert_eq!(brick_collision(&mut e, &mut bricks), Some(0));
        assert_eq!(e.ball.velocity, Vec2::new(wx, wy));
    }
}

#[test]
fn brick_with_no_life_left_is_destroyed() {
    let mut e = ball_at(0, -14_000, 0, 300_000);
    let mut bricks = vec![Some(Brick { life: 0, body: Aabb::from_size(0, 0, 40_000, 20_000) })];
    assert_eq!(brick_collision(&mut e, &mut bricks), Some(0));
    assert_eq!(bricks[0], None);
    assert_eq!(e.ball.velocity, Vec2::new(0, -300_000));
}

#[test]
fn brick_with_life_loses_one() {
    let mut e = ball_at(0, -14_000, 0, 300_000);
    let body = Aabb::from_size(0, 0, 40_000, 20_000);
    let mut bricks = vec![Some(Brick { life: 2, body })];
    assert_eq!(brick_collision(&mut e, &mut bricks), Some(0));
    assert_eq!(bricks[0], Some(Brick { life: 1, body }));
}

#[test]
fn brick_life_runs_down_then_brick_is_gone() {
    let body = Aabb::from_size(0, 0, 40_000, 20_000);
    let mut bricks = vec![Some(Brick { life: 2, body })];
    let mut lives = Vec::new();
    for _ in 0..4 {
        let mut e = ball_at(0, -14_000, 0, 300_000);
        brick_collision(&mut e, &mut bricks);
        lives.push(bricks[0].map(|b| b.life));
    }
    assert_eq!(lives, vec![Some(1), Some(0), None, None]);
}

#[test]
fn only_the_first_overlapping_brick_is_hit() {
    let mut e = ball_at(0, 0, 0, 300_000);
    let a = Brick { life: 1, body: Aabb::from_size(-10_000, 0, 40_000, 20_000) };
    let b = Brick { life: 1, body: Aabb::from_size(10_000, 0, 40_000, 20_000) };
    let mut bricks = vec![None, Some(a), Some(b)];
    assert_eq!(brick_collision(&mut e, &mut bricks), Some(1));
    assert_eq!(bricks[1], Some(Brick { life: 0, body: a.body }));
    assert_eq!(bricks[2], Some(b));
}

#[test]
fn standard_grid_fills_ten_rows() {
    let config = GameConfig::standard();
    let lives: Vec<u32> = (0..150).map(|k| (k % 3) as u32).collect();
    let bricks = setup_bricks(&config, &lives);
    assert_eq!(bricks.len(), 150);
    let first = bricks[0].unwrap();
    assert_eq!(first.life, 0);
    assert_eq!(first.body, Aabb::from_size(-280_000, 390_000, 40_000, 20_000));
    let last = bricks[149].unwrap();
    assert_eq!(last.life, 2);
    assert_eq!(last.body, Aabb::from_size(280_000, 210_000, 40_000, 20_000));
    let second_row = bricks[15].unwrap();
    assert_eq!(second_row.body.center, Vec2::new(-280_000, 370_000));
}

#[test]
fn rolled_lives_are_below_tiers() {
    let lives = roll_lives(1_000);
    assert_eq!(lives.len(), 1_000);
    assert!(lives.iter().all(|&l| l < BRICK_TIERS));
    // A thousand draws over three tiers reach more than one of them.
    assert!(lives.iter().any(|&l| l != lives[0]));
}
