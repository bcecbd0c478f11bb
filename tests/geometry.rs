use carcassonne::geometry::{Dir4, Dir8, Pos, Spin};

#[test]
fn dir4_ids_round_trip() {
    for d in [Dir4::Up, Dir4::Right, Dir4::Down, Dir4::Left] {
        assert_eq!(Dir4::from_id(d.id()), d);
    }
    assert_eq!(Dir4::from_id(5), Dir4::Right);
    assert_eq!(Dir4::Left.id(), 3);
}

#[test]
fn dir4_rotates_clockwise() {
    assert_eq!(Dir4::Up.rotate(Spin::Clockwise), Dir4::Right);
    assert_eq!(Dir4::Left.rotate(Spin::Clockwise), Dir4::Up);
    assert_eq!(Dir4::Right.rotate(Spin::Spin180), Dir4::Left);
    assert_eq!(Dir4::Up.rotate(Spin::CounterClockwise), Dir4::Left);
    assert_eq!(Dir4::Down.rotate(Spin::No), Dir4::Down);
}

#[test]
fn dir4_negation_is_opposite_edge() {
    assert_eq!(-Dir4::Up, Dir4::Down);
    assert_eq!(-Dir4::Right, Dir4::Left);
    assert_eq!(-(-Dir4::Left), Dir4::Left);
}

#[test]
fn spin_ids_and_inverse() {
    assert_eq!(Spin::from_id(6), Spin::Spin180);
    assert_eq!(Spin::CounterClockwise.id(), 3);
    assert_eq!(-Spin::Clockwise, Spin::CounterClockwise);
    assert_eq!(-Spin::No, Spin::No);
    assert_eq!(-Spin::Spin180, Spin::Spin180);
    for d in [Dir4::Up, Dir4::Right, Dir4::Down, Dir4::Left] {
        for s in [Spin::No, Spin::Clockwise, Spin::Spin180, Spin::CounterClockwise] {
            assert_eq!(d.rotate(s).rotate(-s), d);
        }
    }
}

#[test]
fn dir8_rotation_keeps_half() {
    let p = Dir8::new(Dir4::Up, true);
    assert_eq!(p.rotate(Spin::Clockwise), Dir8 { dir: Dir4::Right, clockwise_side: true });
}

#[test]
fn dir8_negation_flips_edge_and_half() {
    let p = Dir8::new(Dir4::Right, true);
    assert_eq!(-p, Dir8 { dir: Dir4::Left, clockwise_side: false });
    assert_eq!(-(-p), p);
}

#[test]
fn unit_steps() {
    assert_eq!(Dir4::Up.to_pos(), Pos::new(0, -1));
    assert_eq!(Dir4::Down.to_pos(), Pos::new(0, 1));
    assert_eq!(Dir4::Left.to_pos(), Pos::new(-1, 0));
    assert_eq!(Dir4::Right.to_pos(), Pos::new(1, 0));
}

#[test]
fn tile_pixel_positions() {
    assert_eq!(Dir4::Up.to_tilepos(10), Pos::new(32, 10));
    assert_eq!(Dir4::Right.to_tilepos(10), Pos::new(54, 32));
    assert_eq!(Dir4::Down.to_tilepos(0), Pos::new(32, 64));
    assert_eq!(Dir4::Left.to_tilepos(32), Pos::new(32, 32));
}

#[test]
fn position_arithmetic() {
    let a = Pos::new(2, 3);
    assert_eq!(a + Pos::new(-5, 1), Pos::new(-3, 4));
    assert_eq!(a - Pos::new(1, 1), Pos::new(1, 2));
    assert_eq!(a * 3, Pos::new(6, 9));
    assert_eq!(a + Dir4::Up, Pos::new(2, 2));
    assert_eq!(a - Dir4::Left, Pos::new(3, 3));
}

#[test]
fn around_is_clockwise_from_north() {
    let r = Pos::new(2, 3).around();
    assert_eq!(
        r,
        vec![
            Pos::new(2, 2),
            Pos::new(3, 2),
            Pos::new(3, 3),
            Pos::new(3, 4),
            Pos::new(2, 4),
            Pos::new(1, 4),
            Pos::new(1, 3),
            Pos::new(1, 2),
        ]
    );
    for p in &r {
        assert!((p.x - 2).abs() <= 1 && (p.y - 3).abs() <= 1);
        assert!(*p != Pos::new(2, 3));
    }
}
