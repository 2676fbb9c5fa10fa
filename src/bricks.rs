//! The brick grid: its layout, each brick's durability, and the ball's bounce
//! off a brick.

use crate::ball::{lemma_component_bound, Ball, BallEntity};
use crate::config::GameConfig;
use crate::geometry::{collide, collision, Aabb, Side, Vec2};
use crate::speed::{abs, norm2};
use rand::distributions::{Distribution, Uniform};
use vstd::arithmetic::div_mod::{lemma_fundamental_div_mod, lemma_mod_pos_bound};
use vstd::prelude::*;

verus! {

/// Number of durability tiers: a brick starts with a life below this.
pub const BRICK_TIERS: u32 = 3;

/// A brick: the hits it takes beyond the next one, which also picks its
/// sprite, and its box.
#[derive(Clone, Copy, Debug, PartialEq, Eq, Structural)]
pub struct Brick {
    pub life: u32,
    pub body: Aabb,
}

/// Every brick left in the slots has a well-formed box.
pub open spec fn bricks_wf(slots: Seq<Option<Brick>>) -> bool {
    forall|j: int|
        0 <= j < slots.len() ==> match #[trigger] slots[j] {
            Some(b) => b.body.wf(),
            None => true,
        }
}

/// The slots `after` follow from `before` by wear alone: an empty slot stays
/// empty, and a brick that remains keeps its box and has no more life than
/// before.
pub open spec fn bricks_worn(before: Seq<Option<Brick>>, after: Seq<Option<Brick>>) -> bool {
    &&& after.len() == before.len()
    &&& forall|j: int|
        0 <= j < before.len() ==> match #[trigger] after[j] {
            Some(b) => before[j] is Some && b.body == before[j].unwrap().body && b.life
                <= before[j].unwrap().life,
            None => true,
        }
}

/// Wear accumulates: wear after wear is wear.
pub proof fn lemma_bricks_worn_trans(a: Seq<Option<Brick>>, b: Seq<Option<Brick>>, c: Seq<Option<Brick>>)
    requires
        bricks_worn(a, b),
        bricks_worn(b, c),
    ensures
        bricks_worn(a, c),
{
    assert forall|j: int| 0 <= j < a.len() implies match #[trigger] c[j] {
        Some(x) => a[j] is Some && x.body == a[j].unwrap().body && x.life <= a[j].unwrap().life,
        None => true,
    } by {
        if c[j] is Some {
            assert(b[j] is Some);
        }
    }
}

/// A brick after one hit: with life left it loses one, else it is destroyed.
pub open spec fn hit(b: Brick) -> Option<Brick> {
    if b.life > 0 {
        Some(Brick { life: (b.life - 1) as u32, body: b.body })
    } else {
        None
    }
}

/// A slot after `k` hits on whatever it holds.
pub open spec fn after_hits(slot: Option<Brick>, k: nat) -> Option<Brick>
    decreases k,
{
    if k == 0 {
        slot
    } else {
        match after_hits(slot, (k - 1) as nat) {
            Some(b) => hit(b),
            None => None,
        }
    }
}

/// Brick life only goes down: each of the first `life` hits takes exactly one
/// life, the next hit destroys the brick, and a destroyed brick stays
/// destroyed whatever follows.
pub proof fn lemma_life_runs_down(b: Brick, k: nat)
    ensures
        k <= b.life ==> after_hits(Some(b), k) == Some(Brick { life: (b.life - k) as u32, body: b.body }),
        k > b.life ==> after_hits(Some(b), k) is None,
    decreases k,
{
    if k > 0 {
        lemma_life_runs_down(b, (k - 1) as nat);
    }
}

/// A ball that strikes a brick's left side leaves moving left (or not
/// sideways), at the same horizontal pace; likewise away from each other side.
pub proof fn lemma_bounce_pushes_away(v: Vec2, side: Side)
    requires
        abs(v.x as int) <= i64::MAX,
        abs(v.y as int) <= i64::MAX,
    ensures
        side == Side::Left ==> brick_bounce(v, side).x <= 0,
        side == Side::Right ==> brick_bounce(v, side).x >= 0,
        side == Side::Top ==> brick_bounce(v, side).y >= 0,
        side == Side::Bottom ==> brick_bounce(v, side).y <= 0,
        abs(brick_bounce(v, side).x as int) == abs(v.x as int),
        abs(brick_bounce(v, side).y as int) == abs(v.y as int),
{
}

/// The side of the brick in `slot`, if any, that `a` struck.
pub open spec fn slot_contact(a: Aabb, slot: Option<Brick>) -> Option<Side> {
    match slot {
        Some(b) => collision(a, b.body),
        None => None,
    }
}

/// The first slot, from index `i` on, holding a brick that `a` collides with,
/// and the side of it struck.
pub open spec fn first_brick_from(a: Aabb, slots: Seq<Option<Brick>>, i: int) -> Option<(int, Side)>
    decreases slots.len() - i,
{
    if i >= slots.len() {
        None
    } else {
        match slot_contact(a, slots[i]) {
            Some(side) => Some((i, side)),
            None => first_brick_from(a, slots, i + 1),
        }
    }
}

pub open spec fn first_brick(a: Aabb, slots: Seq<Option<Brick>>) -> Option<(int, Side)> {
    first_brick_from(a, slots, 0)
}

/// The velocity after striking a brick's `side`: pushed away from that side,
/// with its magnitude kept.
pub open spec fn brick_bounce(v: Vec2, side: Side) -> Vec2 {
    match side {
        Side::Left => Vec2 { x: (-abs(v.x as int)) as i64, y: v.y },
        Side::Right => Vec2 { x: abs(v.x as int) as i64, y: v.y },
        Side::Top => Vec2 { x: v.x, y: abs(v.y as int) as i64 },
        Side::Bottom => Vec2 { x: v.x, y: (-abs(v.y as int)) as i64 },
    }
}

/// The ball and the bricks after the ball's first brick contact, if any, is
/// resolved.
pub open spec fn after_bricks(e: BallEntity, slots: Seq<Option<Brick>>) -> (BallEntity, Seq<Option<Brick>>) {
    match first_brick(e.body, slots) {
        Some((i, side)) => (
            BallEntity {
                ball: Ball { velocity: brick_bounce(e.ball.velocity, side), speed: e.ball.speed },
                body: e.body,
            },
            slots.update(i, hit(slots[i].unwrap())),
        ),
        None => (e, slots),
    }
}

/// Bounces the ball off the first brick it overlaps and damages that brick;
/// returns the brick's slot.
pub fn brick_collision(entity: &mut BallEntity, bricks: &mut Vec<Option<Brick>>) -> (r: Option<usize>)
    requires
        old(entity).wf(),
        bricks_wf(old(bricks)@),
    ensures
        (*final(entity), final(bricks)@) == after_bricks(*old(entity), old(bricks)@),
        final(entity).wf(),
        bricks_wf(final(bricks)@),
        bricks_worn(old(bricks)@, final(bricks)@),
        match first_brick(old(entity).body, old(bricks)@) {
            Some((i, _)) => r == Some(i as usize),
            None => r is None,
        },
{
    let mut i: usize = 0;
    while i < bricks.len()
        invariant
            i <= bricks@.len(),
            bricks@ == old(bricks)@,
            *entity == *old(entity),
            entity.wf(),
            bricks_wf(bricks@),
            first_brick(entity.body, bricks@) == first_brick_from(entity.body, bricks@, i as int),
        decreases bricks@.len() - i,
    {
        assert(bricks_worn(old(bricks)@, bricks@));
        let slot = bricks[i];
        match slot {
            Some(brick) => {
                assert(brick.body.wf()) by {
                    assert(bricks@[i as int] == slot);
                }
                match collide(&entity.body, &brick.body) {
                    Some(side) => {
                        let v = entity.ball.velocity;
                        proof {
                            lemma_component_bound(entity.ball);
                        }
                        let mx: i64 = if v.x < 0 { -v.x } else { v.x };
                        let my: i64 = if v.y < 0 { -v.y } else { v.y };
                        let new_v = match side {
                            Side::Left => Vec2 { x: -mx, y: v.y },
                            Side::Right => Vec2 { x: mx, y: v.y },
                            Side::Top => Vec2 { x: v.x, y: my },
                            Side::Bottom => Vec2 { x: v.x, y: -my },
                        };
                        assert(norm2(new_v.x as int, new_v.y as int) == norm2(v.x as int, v.y as int))
                            by (nonlinear_arith)
                            requires
                                new_v.x == v.x || new_v.x == -v.x,
                                new_v.y == v.y || new_v.y == -v.y,
                        ;
                        entity.ball.velocity = new_v;
                        let after: Option<Brick> = if brick.life > 0 {
                            Some(Brick { life: brick.life - 1, body: brick.body })
                        } else {
                            None
                        };
                        bricks.set(i, after);
                        assert(bricks_worn(old(bricks)@, bricks@)) by {
                            assert forall|j: int| 0 <= j < old(bricks)@.len() implies match #[trigger] bricks@[j] {
                                Some(b) => old(bricks)@[j] is Some && b.body == old(bricks)@[j].unwrap().body
                                    && b.life <= old(bricks)@[j].unwrap().life,
                                None => true,
                            } by {
                                if j != i {
                                    assert(bricks@[j] == old(bricks)@[j]);
                                }
                            }
                        }
                        assert(bricks_wf(bricks@)) by {
                            assert forall|j: int| 0 <= j < bricks@.len() implies match #[trigger] bricks@[j] {
                                Some(b) => b.body.wf(),
                                None => true,
                            } by {
                                if j != i {
                                    assert(bricks@[j] == old(bricks)@[j]);
                                }
                            }
                        }
                        return Some(i);
                    },
                    None => {},
                }
            },
            None => {},
        }
        i = i + 1;
    }
    None
}

/// How many bricks fill one row of the play area.
pub open spec fn bricks_per_row(config: GameConfig) -> int {
    config.play_area.width / config.brick_size.width
}

/// How many bricks a round starts with.
pub open spec fn brick_count(config: GameConfig) -> int {
    config.brick_rows * bricks_per_row(config)
}

/// The box of the brick in `row` (counted down from the top) and `column`
/// (counted from the left).
pub open spec fn brick_box(config: GameConfig, row: int, column: int) -> Aabb {
    let bw = config.brick_size.width as int;
    let bh = config.brick_size.height as int;
    Aabb {
        center: Vec2 {
            x: (column * bw + bw / 2 - config.play_area.width / 2) as i64,
            y: (config.play_area.height / 2 - bh / 2 - row * bh) as i64,
        },
        half: Vec2 { x: (bw / 2) as i64, y: (bh / 2) as i64 },
    }
}

/// The grid of bricks, row by row from the top, each row from the left; the
/// brick in slot `k` gets life `lives[k]`.
pub fn setup_bricks(config: &GameConfig, lives: &Vec<u32>) -> (r: Vec<Option<Brick>>)
    requires
        config.wf(),
        lives@.len() == brick_count(*config),
    ensures
        r@.len() == lives@.len(),
        bricks_wf(r@),
        forall|k: int|
            0 <= k < r@.len() ==> #[trigger] r@[k] == Some(
                Brick {
                    life: lives@[k],
                    body: brick_box(*config, k / bricks_per_row(*config), k % bricks_per_row(*config)),
                },
            ),
{
    let bw = config.brick_size.width;
    let bh = config.brick_size.height;
    let per_row = config.play_area.width / bw;
    let mut bricks: Vec<Option<Brick>> = Vec::new();
    let mut k: usize = 0;
    while k < lives.len()
        invariant
            config.wf(),
            bw == config.brick_size.width,
            bh == config.brick_size.height,
            per_row == bricks_per_row(*config),
            lives@.len() == brick_count(*config),
            k <= lives@.len(),
            bricks@.len() == k,
            bricks_wf(bricks@),
            forall|j: int|
                0 <= j < k ==> #[trigger] bricks@[j] == Some(
                    Brick {
                        life: lives@[j],
                        body: brick_box(*config, j / per_row as int, j % per_row as int),
                    },
                ),
        decreases lives@.len() - k,
    {
        let rows = config.brick_rows;
        proof {
            assert(per_row <= config.play_area.width) by (nonlinear_arith)
                requires
                    per_row == config.play_area.width / bw,
                    0 < bw,
                    0 < config.play_area.width,
            ;
            assert(per_row > 0 && k < 1024 * 0x1000_0000) by (nonlinear_arith)
                requires
                    k < rows * per_row,
                    0 <= k,
                    0 <= rows <= 1024,
                    0 <= per_row <= 0x1000_0000,
            ;
        }
        let kk = k as i64;
        let row = kk / per_row;
        let column = kk % per_row;
        proof {
            lemma_fundamental_div_mod(kk as int, per_row as int);
            lemma_mod_pos_bound(kk as int, per_row as int);
            lemma_fundamental_div_mod(config.play_area.width as int, bw as int);
            lemma_mod_pos_bound(config.play_area.width as int, bw as int);
            assert(0 <= row < rows) by (nonlinear_arith)
                requires
                    kk == per_row * row + column,
                    0 <= column < per_row,
                    kk < rows * per_row,
                    0 <= kk,
            ;
            assert(0 <= column * bw && column * bw + bw <= config.play_area.width) by (nonlinear_arith)
                requires
                    0 <= column < per_row,
                    config.play_area.width == bw * per_row + config.play_area.width % bw,
                    0 <= config.play_area.width % bw,
                    0 < bw,
            ;
            assert(0 <= row * bh <= 1024 * 0x1000_0000) by (nonlinear_arith)
                requires
                    0 <= row < 1024,
                    0 < bh <= 0x1000_0000,
            ;
        }
        let x = column * bw + bw / 2 - config.play_area.width / 2;
        let y = config.play_area.height / 2 - bh / 2 - row * bh;
        let body = Aabb::from_size(x, y, bw, bh);
        let ghost prev = bricks@;
        bricks.push(Some(Brick { life: lives[k], body }));
        proof {
            assert forall|j: int| 0 <= j < bricks@.len() implies match #[trigger] bricks@[j] {
                Some(b) => b.body.wf(),
                None => true,
            } by {
                if j < k {
                    assert(bricks@[j] == prev[j]);
                }
            }
        }
        k = k + 1;
    }
    bricks
}

/// Relies on rand's `Uniform::from(0..bound)`, sampled with
/// `rand::thread_rng()`: a number drawn uniformly from `0..bound`. It panics
/// on an empty range, which `requires` excludes.
#[verifier::external_body]
fn draw_below(bound: u32) -> (r: u32)
    requires
        bound > 0,
    ensures
        r < bound,
{
    Uniform::from(0..bound).sample(&mut rand::thread_rng())
}

/// Draws `count` brick lives, each uniformly below [`BRICK_TIERS`].
pub fn roll_lives(count: usize) -> (r: Vec<u32>)
    ensures
        r@.len() == count,
        forall|k: int| 0 <= k < r@.len() ==> #[trigger] r@[k] < BRICK_TIERS,
{
    let mut lives: Vec<u32> = Vec::new();
    let mut k: usize = 0;
    while k < count
        invariant
            k <= count,
            lives@.len() == k,
            forall|j: int| 0 <= j < lives@.len() ==> #[trigger] lives@[j] < BRICK_TIERS,
        decreases count - k,
    {
        lives.push(draw_below(BRICK_TIERS));
        k = k + 1;
    }
    lives
}

} // verus!
