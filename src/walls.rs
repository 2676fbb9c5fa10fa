//! The three walls around the play area and the ball's bounce off them.

use crate::ball::{advanced, lemma_component_bound, travel, Ball, BallEntity};
use crate::config::GameConfig;
use crate::geometry::{collision, first_contact, first_contact_from, first_hit, Aabb, Side, Vec2};
use crate::speed::{abs, norm2};
use vstd::prelude::*;

verus! {

/// The wall along the left edge, spanning the full height and the corners.
pub open spec fn left_wall(config: GameConfig) -> Aabb {
    let w = config.play_area.width;
    let h = config.play_area.height;
    let t = config.wall_thickness;
    Aabb {
        center: Vec2 { x: (-(w / 2) - t / 2) as i64, y: 0 },
        half: Vec2 { x: (t / 2) as i64, y: ((h + 2 * t) / 2) as i64 },
    }
}

/// The wall along the right edge, spanning the full height and the corners.
pub open spec fn right_wall(config: GameConfig) -> Aabb {
    let w = config.play_area.width;
    let h = config.play_area.height;
    let t = config.wall_thickness;
    Aabb {
        center: Vec2 { x: (w / 2 + t / 2) as i64, y: 0 },
        half: Vec2 { x: (t / 2) as i64, y: ((h + 2 * t) / 2) as i64 },
    }
}

/// The wall along the top edge, spanning the full width and the corners.
pub open spec fn top_wall(config: GameConfig) -> Aabb {
    let w = config.play_area.width;
    let h = config.play_area.height;
    let t = config.wall_thickness;
    Aabb {
        center: Vec2 { x: 0, y: (h / 2 + t / 2) as i64 },
        half: Vec2 { x: ((w + 2 * t) / 2) as i64, y: (t / 2) as i64 },
    }
}

/// The walls of a round: left, right and top; the bottom is open.
pub open spec fn walls_of(config: GameConfig) -> Seq<Aabb> {
    seq![left_wall(config), right_wall(config), top_wall(config)]
}

/// Builds the walls of a round.
pub fn setup_walls(config: &GameConfig) -> (r: Vec<Aabb>)
    requires
        config.wf(),
    ensures
        r@ == walls_of(*config),
        forall|j: int| 0 <= j < r@.len() ==> (#[trigger] r@[j]).wf(),
{
    let w = config.play_area.width;
    let h = config.play_area.height;
    let t = config.wall_thickness;
    let mut walls: Vec<Aabb> = Vec::new();
    walls.push(Aabb::from_size(-(w / 2) - t / 2, 0, t, h + 2 * t));
    walls.push(Aabb::from_size(w / 2 + t / 2, 0, t, h + 2 * t));
    walls.push(Aabb::from_size(0, h / 2 + t / 2, w + 2 * t, t));
    assert(walls@ =~= walls_of(*config));
    walls
}

/// The velocity after striking a wall's `side`: off a side wall the ball is
/// sent back towards the middle (to the left when its center `ball_x` is at or
/// right of the middle, else to the right), off the top it is sent down.
pub open spec fn wall_bounce(v: Vec2, ball_x: int, side: Side) -> Vec2 {
    match side {
        Side::Left | Side::Right => Vec2 {
            x: (if ball_x >= 0 {
                -abs(v.x as int)
            } else {
                abs(v.x as int)
            }) as i64,
            y: v.y,
        },
        Side::Top | Side::Bottom => Vec2 { x: v.x, y: (-abs(v.y as int)) as i64 },
    }
}

/// The ball after resolving its first wall contact, if any.
pub open spec fn after_walls(e: BallEntity, walls: Seq<Aabb>) -> BallEntity {
    match first_contact(e.body, walls) {
        Some((_, side)) => BallEntity {
            ball: Ball {
                velocity: wall_bounce(e.ball.velocity, e.body.center.x as int, side),
                speed: e.ball.speed,
            },
            body: e.body,
        },
        None => e,
    }
}

/// Bounces the ball off the first wall it overlaps; returns that wall's index.
pub fn ball_wall_collision(entity: &mut BallEntity, walls: &Vec<Aabb>) -> (r: Option<usize>)
    requires
        old(entity).wf(),
        forall|j: int| 0 <= j < walls@.len() ==> (#[trigger] walls@[j]).wf(),
    ensures
        *final(entity) == after_walls(*old(entity), walls@),
        final(entity).wf(),
        match first_contact(old(entity).body, walls@) {
            Some((i, _)) => r == Some(i as usize),
            None => r is None,
        },
{
    match first_hit(&entity.body, walls) {
        Some((i, side)) => {
            let v = entity.ball.velocity;
            proof {
                lemma_component_bound(entity.ball);
            }
            let new_v = match side {
                Side::Left | Side::Right => {
                    let m = if v.x < 0 { -v.x } else { v.x };
                    Vec2 { x: if entity.body.center.x >= 0 { -m } else { m }, y: v.y }
                },
                Side::Top | Side::Bottom => {
                    let m = if v.y < 0 { -v.y } else { v.y };
                    Vec2 { x: v.x, y: -m }
                },
            };
            assert(norm2(new_v.x as int, new_v.y as int) == norm2(v.x as int, v.y as int)) by (nonlinear_arith)
                requires
                    new_v.x == v.x || new_v.x == -v.x,
                    new_v.y == v.y || new_v.y == -v.y,
            ;
            entity.ball.velocity = new_v;
            Some(i)
        },
        None => None,
    }
}

/// Wall containment on the right: a ball that has crossed the right interior
/// boundary while still touching the right wall (not through it), within
/// that wall's height and clear of the left wall, is turned back, so the next
/// step of motion does not carry it further out. Its overshoot is thus at
/// most the one step that carried it across.
pub proof fn lemma_right_wall_turns_ball_back(e: BallEntity, config: GameConfig, dt: int)
    requires
        config.wf(),
        e.wf(),
        0 <= dt,
        left_wall(config).max_x() < e.body.min_x() < right_wall(config).min_x(),
        right_wall(config).min_x() < e.body.max_x() < right_wall(config).max_x(),
        right_wall(config).min_y() < e.body.min_y(),
        e.body.max_y() < right_wall(config).max_y(),
    ensures
        after_walls(e, walls_of(config)).ball.velocity.x <= 0,
        advanced(
            e.body.center.x as int,
            after_walls(e, walls_of(config)).ball.velocity.x as int,
            dt,
        ) <= e.body.center.x,
{
    let walls = walls_of(config);
    assert(collision(e.body, walls[0]) is None);
    assert(collision(e.body, walls[1]) == Some(Side::Left));
    assert(first_contact_from(e.body, walls, 1) == Some((1int, Side::Left)));
    assert(first_contact(e.body, walls) == Some((1int, Side::Left)));
    lemma_component_bound(e.ball);
    let v = after_walls(e, walls).ball.velocity.x as int;
    assert(travel(v, dt) <= 0) by {
        if v < 0 {
            assert(0 <= ((-v) * dt) / 1_000_000) by (nonlinear_arith)
                requires
                    v < 0,
                    0 <= dt,
            ;
        } else {
            assert(v * dt == 0) by (nonlinear_arith)
                requires
                    v == 0,
            ;
        }
    }
}

/// Wall containment on the left: the mirror image of
/// [`lemma_right_wall_turns_ball_back`].
pub proof fn lemma_left_wall_turns_ball_back(e: BallEntity, config: GameConfig, dt: int)
    requires
        config.wf(),
        e.wf(),
        0 <= dt,
        left_wall(config).min_x() < e.body.min_x() < left_wall(config).max_x(),
        left_wall(config).max_x() < e.body.max_x() < right_wall(config).min_x(),
        left_wall(config).min_y() < e.body.min_y(),
        e.body.max_y() < left_wall(config).max_y(),
    ensures
        after_walls(e, walls_of(config)).ball.velocity.x >= 0,
        advanced(
            e.body.center.x as int,
            after_walls(e, walls_of(config)).ball.velocity.x as int,
            dt,
        ) >= e.body.center.x,
{
    let walls = walls_of(config);
    assert(collision(e.body, walls[0]) == Some(Side::Right));
    assert(first_contact(e.body, walls) == Some((0int, Side::Right)));
    lemma_component_bound(e.ball);
    let v = after_walls(e, walls).ball.velocity.x as int;
    assert(travel(v, dt) >= 0) by {
        assert(0 <= (v * dt) / 1_000_000) by (nonlinear_arith)
            requires
                v >= 0,
                0 <= dt,
        ;
    }
}

} // verus!
