use pixel_cart::side::{Corner, Edge, LeftRight, Side};
use pixel_cart::vector::{world_pos, IVec2, UVec2, Vec2, UNIT};

const SIDES: [Side; 4] = [Side::Top, Side::Right, Side::Bottom, Side::Left];
const CORNERS: [Corner; 4] =
    [Corner::TopLeft, Corner::TopRight, Corner::BottomRight, Corner::BottomLeft];

#[test]
fn sides_are_listed_in_their_cycle() {
    assert_eq!(Side::SIDES, SIDES);
}

#[test]
fn rotating_follows_the_cycle() {
    assert_eq!(Side::Top.rotate_right(), Side::Right);
    assert_eq!(Side::Right.rotate_right(), Side::Bottom);
    assert_eq!(Side::Bottom.rotate_right(), Side::Left);
    assert_eq!(Side::Left.rotate_right(), Side::Top);
    assert_eq!(Side::Top.rotate_left(), Side::Left);
    assert_eq!(Side::Right.rotate_left(), Side::Top);
    assert_eq!(Side::Bottom.rotate_left(), Side::Right);
    assert_eq!(Side::Left.rotate_left(), Side::Bottom);
    assert_eq!(Side::Top.flip(), Side::Bottom);
    assert_eq!(Side::Right.flip(), Side::Left);
    assert_eq!(Side::Bottom.flip(), Side::Top);
    assert_eq!(Side::Left.flip(), Side::Right);
}

#[test]
fn rotating_there_and_back_changes_nothing() {
    for s in SIDES {
        assert_eq!(s.rotate_right().rotate_left(), s);
        assert_eq!(s.rotate_left().rotate_right(), s);
        assert_eq!(s.flip().flip(), s);
        assert_eq!(s.rotate(LeftRight::Left), s.rotate_left());
        assert_eq!(s.rotate(LeftRight::Right), s.rotate_right());
    }
    for c in CORNERS {
        assert_eq!(c.rotate_right().rotate_left(), c);
        assert_eq!(c.rotate_left().rotate_right(), c);
    }
}

#[test]
fn corner_sides_are_a_quarter_turn_apart() {
    for c in CORNERS {
        let left = c.rotate_left_side();
        let right = c.rotate_right_side();
        assert_ne!(left, right);
        assert_ne!(left, right.flip());
        assert_eq!(left.rotate_right(), right);
        assert_eq!(left.angle_between(right), -90);
        assert_eq!(right.angle_between(left), 90);
    }
}

#[test]
fn corners_lie_between_their_sides() {
    assert_eq!(Corner::TopLeft.rotate_left_side(), Side::Left);
    assert_eq!(Corner::TopLeft.rotate_right_side(), Side::Top);
    assert_eq!(Corner::TopRight.rotate_left_side(), Side::Top);
    assert_eq!(Corner::TopRight.rotate_right_side(), Side::Right);
    assert_eq!(Corner::BottomRight.rotate_left_side(), Side::Right);
    assert_eq!(Corner::BottomRight.rotate_right_side(), Side::Bottom);
    assert_eq!(Corner::BottomLeft.rotate_left_side(), Side::Bottom);
    assert_eq!(Corner::BottomLeft.rotate_right_side(), Side::Left);
    assert_eq!(Side::Top.rotate_left_corner(), Corner::TopLeft);
    assert_eq!(Side::Top.rotate_right_corner(), Corner::TopRight);
    assert_eq!(Side::Right.rotate_left_corner(), Corner::TopRight);
    assert_eq!(Side::Right.rotate_right_corner(), Corner::BottomRight);
    assert_eq!(Side::Bottom.rotate_left_corner(), Corner::BottomRight);
    assert_eq!(Side::Bottom.rotate_right_corner(), Corner::BottomLeft);
    assert_eq!(Side::Left.rotate_left_corner(), Corner::BottomLeft);
    assert_eq!(Side::Left.rotate_right_corner(), Corner::TopLeft);
    assert_eq!(Corner::TopLeft.rotate_right(), Corner::TopRight);
    assert_eq!(Corner::TopRight.rotate_right(), Corner::BottomRight);
    assert_eq!(Corner::BottomRight.rotate_right(), Corner::BottomLeft);
    assert_eq!(Corner::BottomLeft.rotate_right(), Corner::TopLeft);
    assert_eq!(Corner::TopLeft.rotate_left(), Corner::BottomLeft);
}

#[test]
fn angles_between_sides() {
    for s in SIDES {
        assert_eq!(s.angle_between(s), 0);
        assert_eq!(s.angle_between(s.rotate_right()), -90);
        assert_eq!(s.angle_between(s.rotate_left()), 90);
        assert_eq!(s.angle_between(s.flip()), 180);
    }
    // Left and Top are neighbours in the cycle too.
    assert_eq!(Side::Top.angle_between(Side::Left), 90);
    assert_eq!(Side::Left.angle_between(Side::Top), -90);
    assert_eq!(Side::Top.angle_between(Side::Right), -90);
    assert_eq!(Side::Right.angle_between(Side::Left), 180);
}

#[test]
fn directions_of_the_sides() {
    assert_eq!(Side::Top.art_direction(), IVec2::new(0, -1));
    assert_eq!(Side::Right.art_direction(), IVec2::new(1, 0));
    assert_eq!(Side::Bottom.art_direction(), IVec2::new(0, 1));
    assert_eq!(Side::Left.art_direction(), IVec2::new(-1, 0));
    assert_eq!(Side::Top.world_direction(), IVec2::new(0, 1));
    assert_eq!(Side::Right.world_direction(), IVec2::new(1, 0));
    assert_eq!(Side::Bottom.world_direction(), IVec2::new(0, -1));
    assert_eq!(Side::Left.world_direction(), IVec2::new(-1, 0));
}

#[test]
fn vectors_turn_with_the_side() {
    let v = Vec2::new(3, 7);
    assert_eq!(Side::Top.rotate_world_direction(v), Vec2::new(3, 7));
    assert_eq!(Side::Right.rotate_world_direction(v), Vec2::new(7, -3));
    assert_eq!(Side::Bottom.rotate_world_direction(v), Vec2::new(-3, -7));
    assert_eq!(Side::Left.rotate_world_direction(v), Vec2::new(-7, 3));
    for s in SIDES {
        let d = s.world_direction();
        assert_eq!(s.rotate_world_direction(Vec2::new(0, 1)), Vec2::new(d.x as i64, d.y as i64));
    }
}

#[test]
fn left_and_right_are_each_the_other() {
    assert_eq!(LeftRight::Left.not(), LeftRight::Right);
    assert_eq!(LeftRight::Right.not(), LeftRight::Left);
}

#[test]
fn edges_are_equal_when_cell_and_side_are() {
    let e = Edge::new(UVec2::new(4, 5), Side::Left);
    assert_eq!(e, Edge { pos: UVec2 { x: 4, y: 5 }, side: Side::Left });
    assert_ne!(e, Edge::new(UVec2::new(4, 5), Side::Right));
    assert_ne!(e, Edge::new(UVec2::new(5, 4), Side::Left));
}

#[test]
fn world_positions_flip_the_rows() {
    assert_eq!(UNIT, 1_000_000);
    assert_eq!(world_pos(UVec2::new(0, 0)), Vec2::new(0, 0));
    assert_eq!(world_pos(UVec2::new(2, 3)), Vec2::new(2_000_000, -3_000_000));
    assert_eq!(
        world_pos(UVec2::new(u32::MAX, u32::MAX)),
        Vec2::new(4_294_967_295_000_000, -4_294_967_295_000_000)
    );
}
