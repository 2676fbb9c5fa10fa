//! Points, axis-aligned boxes and the side classification of their overlap.

use vstd::prelude::*;

verus! {

/// Largest magnitude of a box center's coordinate (2^60).
pub const MAX_COORD: i64 = 0x1000_0000_0000_0000;

/// Largest half extent of a box (2^30).
pub const MAX_HALF: i64 = 0x4000_0000;

/// A point or a vector of the plane.
#[derive(Clone, Copy, Debug, PartialEq, Eq, Structural)]
pub struct Vec2 {
    pub x: i64,
    pub y: i64,
}

impl Vec2 {
    pub fn new(x: i64, y: i64) -> (r: Vec2)
        ensures
            r.x == x,
            r.y == y,
    {
        Vec2 { x, y }
    }
}

/// The side of the second box that the first box struck.
#[derive(Clone, Copy, Debug, PartialEq, Eq, Structural)]
pub enum Side {
    Left,
    Right,
    Top,
    Bottom,
}

/// An axis-aligned box given by its center and its half extents.
#[derive(Clone, Copy, Debug, PartialEq, Eq, Structural)]
pub struct Aabb {
    pub center: Vec2,
    pub half: Vec2,
}

impl Aabb {
    /// The center lies within the coordinate range and the half extents are
    /// non-negative and bounded.
    pub open spec fn wf(&self) -> bool {
        &&& -MAX_COORD <= self.center.x <= MAX_COORD
        &&& -MAX_COORD <= self.center.y <= MAX_COORD
        &&& 0 <= self.half.x <= MAX_HALF
        &&& 0 <= self.half.y <= MAX_HALF
    }

    pub open spec fn min_x(&self) -> int {
        self.center.x - self.half.x
    }

    pub open spec fn max_x(&self) -> int {
        self.center.x + self.half.x
    }

    pub open spec fn min_y(&self) -> int {
        self.center.y - self.half.y
    }

    pub open spec fn max_y(&self) -> int {
        self.center.y + self.half.y
    }

    /// A box centered at `(x, y)` with the given full width and height
    /// (an odd size loses half a unit on each side).
    pub fn from_size(x: i64, y: i64, width: i64, height: i64) -> (r: Aabb)
        requires
            -MAX_COORD <= x <= MAX_COORD,
            -MAX_COORD <= y <= MAX_COORD,
            0 <= width <= 2 * MAX_HALF,
            0 <= height <= 2 * MAX_HALF,
        ensures
            r.wf(),
            r.center == (Vec2 { x, y }),
            r.half.x == width / 2,
            r.half.y == height / 2,
    {
        Aabb { center: Vec2 { x, y }, half: Vec2 { x: width / 2, y: height / 2 } }
    }
}

/// The two boxes overlap with a positive extent on both axes.
pub open spec fn overlaps(a: Aabb, b: Aabb) -> bool {
    &&& a.min_x() < b.max_x()
    &&& b.min_x() < a.max_x()
    &&& a.min_y() < b.max_y()
    &&& b.min_y() < a.max_y()
}

/// The vertical face of `b` that `a` straddles, with how deep `a` reaches
/// past it; `None` when `a` straddles neither (one box spans the other).
pub open spec fn x_contact(a: Aabb, b: Aabb) -> Option<(Side, int)> {
    if a.min_x() < b.min_x() && b.min_x() < a.max_x() && a.max_x() < b.max_x() {
        Some((Side::Left, a.max_x() - b.min_x()))
    } else if b.min_x() < a.min_x() && a.min_x() < b.max_x() && b.max_x() < a.max_x() {
        Some((Side::Right, b.max_x() - a.min_x()))
    } else {
        None
    }
}

/// The horizontal face of `b` that `a` straddles, with how deep `a` reaches
/// past it; `None` when `a` straddles neither.
pub open spec fn y_contact(a: Aabb, b: Aabb) -> Option<(Side, int)> {
    if a.min_y() < b.min_y() && b.min_y() < a.max_y() && a.max_y() < b.max_y() {
        Some((Side::Bottom, a.max_y() - b.min_y()))
    } else if b.min_y() < a.min_y() && a.min_y() < b.max_y() && b.max_y() < a.max_y() {
        Some((Side::Top, b.max_y() - a.min_y()))
    } else {
        None
    }
}

/// The side of `b` struck by `a`, or `None` when the boxes do not overlap.
///
/// Where `a` straddles a face on both axes, the face it reaches less deeply
/// past is the one struck first; equal depths go to the vertical face
/// (`Left` or `Right`). Where `a` straddles a face on one axis only, that face
/// is struck. Where one box spans the other on both axes, `a` is taken to
/// have struck the top when its center is not below that of `b`, else the
/// bottom.
pub open spec fn collision(a: Aabb, b: Aabb) -> Option<Side> {
    if !overlaps(a, b) {
        None
    } else {
        match x_contact(a, b) {
            Some((xs, xd)) => match y_contact(a, b) {
                Some((ys, yd)) => if yd < xd {
                    Some(ys)
                } else {
                    Some(xs)
                },
                None => Some(xs),
            },
            None => match y_contact(a, b) {
                Some((ys, _)) => Some(ys),
                None => if a.center.y >= b.center.y {
                    Some(Side::Top)
                } else {
                    Some(Side::Bottom)
                },
            },
        }
    }
}

/// Overlapping boxes always report a side; disjoint ones never do.
pub proof fn lemma_collision_iff_overlap(a: Aabb, b: Aabb)
    ensures
        collision(a, b) is Some <==> overlaps(a, b),
{
}

/// Classifies how box `a` collides with box `b`.
pub fn collide(a: &Aabb, b: &Aabb) -> (r: Option<Side>)
    requires
        a.wf(),
        b.wf(),
    ensures
        r == collision(*a, *b),
{
    let a_min_x = a.center.x - a.half.x;
    let a_max_x = a.center.x + a.half.x;
    let a_min_y = a.center.y - a.half.y;
    let a_max_y = a.center.y + a.half.y;
    let b_min_x = b.center.x - b.half.x;
    let b_max_x = b.center.x + b.half.x;
    let b_min_y = b.center.y - b.half.y;
    let b_max_y = b.center.y + b.half.y;
    if !(a_min_x < b_max_x && b_min_x < a_max_x && a_min_y < b_max_y && b_min_y < a_max_y) {
        return None;
    }
    let x_hit: Option<(Side, i64)> = if a_min_x < b_min_x && b_min_x < a_max_x && a_max_x < b_max_x {
        Some((Side::Left, a_max_x - b_min_x))
    } else if b_min_x < a_min_x && a_min_x < b_max_x && b_max_x < a_max_x {
        Some((Side::Right, b_max_x - a_min_x))
    } else {
        None
    };
    let y_hit: Option<(Side, i64)> = if a_min_y < b_min_y && b_min_y < a_max_y && a_max_y < b_max_y {
        Some((Side::Bottom, a_max_y - b_min_y))
    } else if b_min_y < a_min_y && a_min_y < b_max_y && b_max_y < a_max_y {
        Some((Side::Top, b_max_y - a_min_y))
    } else {
        None
    };
    match x_hit {
        Some((xs, xd)) => match y_hit {
            Some((ys, yd)) => if yd < xd {
                Some(ys)
            } else {
                Some(xs)
            },
            None => Some(xs),
        },
        None => match y_hit {
            Some((ys, _)) => Some(ys),
            None => if a.center.y >= b.center.y {
                Some(Side::Top)
            } else {
                Some(Side::Bottom)
            },
        },
    }
}

/// The first of `boxes`, from index `i` on, that `a` collides with, and the
/// side of it that `a` struck.
pub open spec fn first_contact_from(a: Aabb, boxes: Seq<Aabb>, i: int) -> Option<(int, Side)>
    decreases boxes.len() - i,
{
    if i >= boxes.len() {
        None
    } else {
        match collision(a, boxes[i]) {
            Some(side) => Some((i, side)),
            None => first_contact_from(a, boxes, i + 1),
        }
    }
}

/// The first of `boxes` that `a` collides with, and the side of it struck.
pub open spec fn first_contact(a: Aabb, boxes: Seq<Aabb>) -> Option<(int, Side)> {
    first_contact_from(a, boxes, 0)
}

/// Finds the first of `boxes` that `a` collides with.
pub fn first_hit(a: &Aabb, boxes: &Vec<Aabb>) -> (r: Option<(usize, Side)>)
    requires
        a.wf(),
        forall|j: int| 0 <= j < boxes@.len() ==> (#[trigger] boxes@[j]).wf(),
    ensures
        match first_contact(*a, boxes@) {
            Some((i, side)) => r == Some((i as usize, side)),
            None => r is None,
        },
{
    let mut i: usize = 0;
    while i < boxes.len()
        invariant
            i <= boxes@.len(),
            a.wf(),
            forall|j: int| 0 <= j < boxes@.len() ==> (#[trigger] boxes@[j]).wf(),
            first_contact(*a, boxes@) == first_contact_from(*a, boxes@, i as int),
        decreases boxes@.len() - i,
    {
        match collide(a, &boxes[i]) {
            Some(side) => {
                return Some((i, side));
            },
            None => {},
        }
        i = i + 1;
    }
    None
}

} // verus!
