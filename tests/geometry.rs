use breakout::geometry::{collide, Aabb, Side, Vec2};

fn boxed(x: i64, y: i64, hw: i64, hh: i64) -> Aabb {
    Aabb { center: Vec2::new(x, y), half: Vec2::new(hw, hh) }
}

#[test]
fn disjoint_boxes_do_not_collide() {
    let a = boxed(0, 0, 5, 5);
    assert_eq!(collide(&a, &boxed(20, 0, 5, 5)), None);
    assert_eq!(collide(&a, &boxed(0, 20, 5, 5)), None);
}

#[test]
fn touching_edges_do_not_collide() {
    let a = boxed(0, 0, 5, 5);
    assert_eq!(collide(&a, &boxed(10, 0, 5, 5)), None);
    assert_eq!(collide(&a, &boxed(0, -10, 5, 5)), None);
}

#[test]
fn ball_left_of_brick_strikes_its_left_side() {
    // Ball at x = -10 reaches into a brick centered at the origin.
    let ball = boxed(-10, 0, 7, 7);
    let brick = boxed(0, 0, 5, 10);
    assert_eq!(collide(&ball, &brick), Some(Side::Left));
}

#[test]
fn each_side_is_classified() {
    let b = boxed(0, 0, 20, 10);
    assert_eq!(collide(&boxed(-24, 0, 7, 7), &b), Some(Side::Left));
    assert_eq!(collide(&boxed(24, 0, 7, 7), &b), Some(Side::Right));
    assert_eq!(collide(&boxed(0, 14, 7, 7), &b), Some(Side::Top));
    assert_eq!(collide(&boxed(0, -14, 7, 7), &b), Some(Side::Bottom));
}

#[test]
fn shallower_face_wins_at_a_corner() {
    let b = boxed(0, 0, 20, 10);
    // Reaches 2 past the top face and 4 past the right face: the top was struck first.
    assert_eq!(collide(&boxed(23, 15, 7, 7), &b), Some(Side::Top));
    // Reaches 4 past the top face and 2 past the right face.
    assert_eq!(collide(&boxed(25, 13, 7, 7), &b), Some(Side::Right));
}

#[test]
fn equal_depths_go_to_the_vertical_face() {
    let b = boxed(0, 0, 20, 10);
    // Reaches 3 past both the right face and the top face.
    assert_eq!(collide(&boxed(24, 14, 7, 7), &b), Some(Side::Right));
    assert_eq!(collide(&boxed(-24, -14, 7, 7), &b), Some(Side::Left));
}

#[test]
fn contained_box_reports_top_or_bottom() {
    let b = boxed(0, 0, 20, 10);
    assert_eq!(collide(&boxed(0, 1, 2, 2), &b), Some(Side::Top));
    assert_eq!(collide(&boxed(0, 0, 2, 2), &b), Some(Side::Top));
    assert_eq!(collide(&boxed(0, -1, 2, 2), &b), Some(Side::Bottom));
}

#[test]
fn box_spanning_one_axis_uses_the_other() {
    // Ball narrower than the paddle and over its middle: only the top face is straddled.
    let paddle = boxed(0, 0, 70, 10);
    assert_eq!(collide(&boxed(5, 12, 7, 7), &paddle), Some(Side::Top));
}

#[test]
fn from_size_halves_the_extents() {
    let a = Aabb::from_size(3, -4, 14, 20);
    assert_eq!(a.center, Vec2::new(3, -4));
    assert_eq!(a.half, Vec2::new(7, 10));
}
