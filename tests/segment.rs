use carcassonne::geometry::{Dir4, Dir8, Pos, SideType, Spin};
use carcassonne::segment::{PlacedSegment, Segment, SegmentType};
use carcassonne::tile::{PlacedTile, Tile};
use carcassonne::tilepic::{Hint, HintLine};

#[test]
fn same_type_ignores_payload() {
    let a = SegmentType::CitySegment { pennant: 1 };
    let b = SegmentType::CitySegment { pennant: 0 };
    let r = SegmentType::RoadSegment { adj_road_city: vec![2] };
    assert!(a.is_same_type(&b));
    assert!(!a.is_same_type(&r));
    assert!(SegmentType::RiverSegment.is_same_type(&SegmentType::RiverSegment));
    assert!(SegmentType::FieldSegment { adj_city: vec![0] }.is_field());
    assert!(!r.is_field());
}

#[test]
fn placed_segment_rotates_points() {
    let s = Segment {
        typ: SegmentType::RiverSegment,
        direction: vec![Dir8::new(Dir4::Up, true), Dir8::new(Dir4::Left, false)],
        hint: Hint::default(),
    };
    let p = PlacedSegment::create(Pos::new(4, -2), s, Spin::Clockwise);
    assert_eq!(p.pos, Pos::new(4, -2));
    assert_eq!(p.direction, vec![Dir8::new(Dir4::Right, true), Dir8::new(Dir4::Up, false)]);
    assert!(!p.occupied());
}

fn two_cities() -> Tile {
    Tile {
        segs: vec![
            Segment {
                typ: SegmentType::CitySegment { pennant: 0 },
                direction: vec![Dir8::new(Dir4::Up, true), Dir8::new(Dir4::Up, false)],
                hint: Hint::default(),
            },
            Segment {
                typ: SegmentType::FieldSegment { adj_city: vec![] },
                direction: vec![Dir8::new(Dir4::Down, true), Dir8::new(Dir4::Up, false)],
                hint: Hint::default(),
            },
            Segment {
                typ: SegmentType::CitySegment { pennant: 1 },
                direction: vec![Dir8::new(Dir4::Down, true), Dir8::new(Dir4::Down, false)],
                hint: Hint::default(),
            },
        ],
        features: vec![],
        sides: [SideType::City, SideType::Field, SideType::City, SideType::Field],
    }
}

#[test]
fn find_seg_by_point_and_kind() {
    let t = PlacedTile::create(Pos::new(0, 0), two_cities(), Spin::No);
    let city = SegmentType::CitySegment { pennant: 9 };
    let found = t.find_seg(Dir8::new(Dir4::Down, false), &city).unwrap();
    assert!(matches!(found.typ, SegmentType::CitySegment { pennant: 1 }));
    let field = SegmentType::FieldSegment { adj_city: vec![] };
    let f = t.find_seg(Dir8::new(Dir4::Up, false), &field).unwrap();
    assert!(f.typ.is_field());
    assert!(t.find_seg(Dir8::new(Dir4::Left, true), &city).is_none());
    assert!(t.find_seg(Dir8::new(Dir4::Right, true), &SegmentType::RiverSegment).is_none());
}

#[test]
fn can_connect_compares_facing_sides() {
    let placed = PlacedTile::create(Pos::new(0, 0), two_cities(), Spin::Clockwise);
    assert_eq!(placed.sides, [SideType::City, SideType::Field, SideType::City, SideType::Field]);
    let t = two_cities();
    assert!(!t.can_connect(Spin::No, &placed, Dir4::Left));
    assert!(!t.can_connect(Spin::No, &placed, Dir4::Up));
    assert!(t.can_connect(Spin::Clockwise, &placed, Dir4::Up));
}

#[test]
fn hint_lines() {
    assert_eq!(HintLine::from_dir4(Dir4::Left), HintLine::LR);
    assert_eq!(HintLine::from_dir4(Dir4::Up), HintLine::UD);
    assert_eq!(HintLine::LR.try_dir4(), Some(Dir4::Right));
    assert_eq!(HintLine::UD.try_dir4(), Some(Dir4::Up));
    assert_eq!(HintLine::NoLine.try_dir4(), None);
    assert_eq!(HintLine::default(), HintLine::NoLine);
    assert!(Hint::default().is_empty());
    assert!(!Hint::Hintline { pos: vec![(Pos::new(1, 1), HintLine::UD)] }.is_empty());
    assert!(Hint::LineSegment { line: vec![] }.is_empty());
}
