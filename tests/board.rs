use carcassonne::board::Board;
use carcassonne::error::GameError;
use carcassonne::extension::ExtensionState;
use carcassonne::feature::{Feature, FeatureType, PlacedFeature};
use carcassonne::geometry::{Dir4, Dir8, Pos, SideType, Spin};
use carcassonne::object::{CanScore, Object};
use carcassonne::segment::{PlacedSegment, Segment, SegmentType};
use carcassonne::tile::Tile;
use carcassonne::tilepic::Hint;
use carcassonne::token::{BelongingToken, PlacedBelongingToken, PlacedToken, Token};

fn points(edges: &[Dir4]) -> Vec<Dir8> {
    let mut v = Vec::new();
    for &d in edges {
        v.push(Dir8::new(d, true));
        v.push(Dir8::new(d, false));
    }
    v
}

fn seg(typ: SegmentType, edges: &[Dir4]) -> Segment {
    Segment { typ, direction: points(edges), hint: Hint::default() }
}

fn road() -> SegmentType {
    SegmentType::RoadSegment { adj_road_city: vec![] }
}

fn field() -> SegmentType {
    SegmentType::FieldSegment { adj_city: vec![] }
}

fn city() -> SegmentType {
    SegmentType::CitySegment { pennant: 0 }
}

/// A road running from the left edge to the right edge.
fn straight_road() -> Tile {
    Tile {
        segs: vec![seg(road(), &[Dir4::Left, Dir4::Right]), seg(field(), &[Dir4::Up]), seg(field(), &[Dir4::Down])],
        features: vec![],
        sides: [SideType::Field, SideType::Road, SideType::Field, SideType::Road],
    }
}

/// A city on the upper edge only.
fn city_edge() -> Tile {
    Tile {
        segs: vec![seg(city(), &[Dir4::Up]), seg(field(), &[Dir4::Right, Dir4::Down, Dir4::Left])],
        features: vec![],
        sides: [SideType::City, SideType::Field, SideType::Field, SideType::Field],
    }
}

/// A city running from the upper edge to the lower edge.
fn city_corridor() -> Tile {
    Tile {
        segs: vec![seg(city(), &[Dir4::Up, Dir4::Down]), seg(field(), &[Dir4::Right]), seg(field(), &[Dir4::Left])],
        features: vec![],
        sides: [SideType::City, SideType::Field, SideType::City, SideType::Field],
    }
}

/// A city filling the whole tile.
fn city_all() -> Tile {
    Tile {
        segs: vec![seg(city(), &[Dir4::Up, Dir4::Right, Dir4::Down, Dir4::Left])],
        features: vec![],
        sides: [SideType::City; 4],
    }
}

fn field_all() -> Tile {
    Tile {
        segs: vec![seg(field(), &[Dir4::Up, Dir4::Right, Dir4::Down, Dir4::Left])],
        features: vec![],
        sides: [SideType::Field; 4],
    }
}

fn new_board() -> Board {
    Board::create(2, ExtensionState { enabled: vec![] })
}

fn tile_index(b: &Board, p: Pos) -> usize {
    b.tiles.iter().position(|t| t.pos == p).unwrap()
}

fn sorted_refs(o: &Object) -> Vec<(usize, usize)> {
    let mut v = o.segments.clone();
    v.sort();
    v
}

fn sorted_open(o: &Object) -> Vec<(Pos, u8, bool)> {
    let mut v: Vec<(Pos, u8, bool)> =
        o.opened_side.iter().map(|(p, d)| (*p, d.dir.id() as u8, d.clockwise_side)).collect();
    v.sort();
    v
}

#[test]
fn create_numbers_players() {
    let b = Board::create(3, ExtensionState { enabled: vec![] });
    assert_eq!(b.players.len(), 3);
    assert_eq!(b.players[2].id, 2);
    assert!(b.tiles.is_empty());
    assert_eq!(b.current_player_id, 0);
}

#[test]
fn next_player_wraps() {
    let mut b = Board::create(3, ExtensionState { enabled: vec![] });
    b.next_player();
    b.next_player();
    assert_eq!(b.current_player_id, 2);
    b.next_player();
    assert_eq!(b.current_player_id, 0);
    let mut one = Board::create(1, ExtensionState { enabled: vec![] });
    one.next_player();
    assert_eq!(one.current_player_id, 0);
}

#[test]
fn place_and_have_tile() {
    let mut b = new_board();
    assert!(!b.have_tile(Pos::new(0, 0)));
    b.place(straight_road(), Pos::new(0, 0), Spin::Clockwise);
    assert!(b.have_tile(Pos::new(0, 0)));
    assert!(!b.have_tile(Pos::new(1, 0)));
    let t = &b.tiles[0];
    assert_eq!(t.orient, Spin::Clockwise);
    assert_eq!(t.segs[0].direction, points(&[Dir4::Up, Dir4::Down]));
    assert_eq!(t.segs[0].pos, Pos::new(0, 0));
    assert!(t.segs[0].tokens.is_empty());
}

#[test]
fn place_replaces_tile_at_same_position() {
    let mut b = new_board();
    b.place(straight_road(), Pos::new(0, 0), Spin::No);
    b.place(city_all(), Pos::new(0, 0), Spin::No);
    assert_eq!(b.tiles.len(), 1);
    assert_eq!(b.tiles[0].sides, [SideType::City; 4]);
}

#[test]
fn can_place_on_empty_neighbourhood() {
    let b = new_board();
    assert!(b.can_place(city_edge(), Pos::new(5, 5), Spin::Spin180));
}

#[test]
fn can_place_checks_facing_sides() {
    let mut b = new_board();
    b.place(straight_road(), Pos::new(0, 0), Spin::No);
    assert!(b.can_place(straight_road(), Pos::new(1, 0), Spin::No));
    assert!(b.can_place(straight_road(), Pos::new(1, 0), Spin::Spin180));
    assert!(!b.can_place(straight_road(), Pos::new(1, 0), Spin::Clockwise));
    assert!(b.can_place(field_all(), Pos::new(0, 1), Spin::No));
    assert!(!b.can_place(city_all(), Pos::new(0, 1), Spin::No));
}

#[test]
fn can_place_reads_neighbour_rotation() {
    let mut b = new_board();
    b.place(city_edge(), Pos::new(0, -1), Spin::Spin180);
    assert!(b.can_place(city_edge(), Pos::new(0, 0), Spin::No));
    assert!(!b.can_place(field_all(), Pos::new(0, 0), Spin::No));
    let mut c = new_board();
    c.place(city_edge(), Pos::new(0, -1), Spin::No);
    assert!(!c.can_place(city_edge(), Pos::new(0, 0), Spin::No));
    assert!(c.can_place(field_all(), Pos::new(0, 0), Spin::No));
}

#[test]
fn can_place_needs_every_neighbour() {
    let mut b = new_board();
    b.place(straight_road(), Pos::new(-1, 0), Spin::No);
    b.place(city_edge(), Pos::new(0, -1), Spin::No);
    assert!(b.can_place(straight_road(), Pos::new(0, 0), Spin::No));
    assert!(!b.can_place(city_edge(), Pos::new(0, 0), Spin::Clockwise));
    assert!(!b.can_place(field_all(), Pos::new(0, 0), Spin::No));
}

#[test]
fn two_straight_roads_form_one_region() {
    let mut b = new_board();
    b.place(straight_road(), Pos::new(0, 0), Spin::No);
    b.place(straight_road(), Pos::new(1, 0), Spin::No);
    let a = (tile_index(&b, Pos::new(0, 0)), 0);
    let c = (tile_index(&b, Pos::new(1, 0)), 0);
    let from_a = b.search_object(a);
    let from_c = b.search_object(c);
    assert_eq!(from_a.segments, vec![a, c]);
    assert_eq!(from_c.segments, vec![c, a]);
    let expected = vec![
        (Pos::new(0, 0), Dir4::Left.id() as u8, false),
        (Pos::new(0, 0), Dir4::Left.id() as u8, true),
        (Pos::new(1, 0), Dir4::Right.id() as u8, false),
        (Pos::new(1, 0), Dir4::Right.id() as u8, true),
    ];
    assert_eq!(sorted_open(&from_a), expected);
    assert_eq!(sorted_open(&from_c), expected);
    assert!(!from_a.complete(&b));
}

#[test]
fn region_same_from_any_seed() {
    let mut b = new_board();
    b.place(city_edge(), Pos::new(0, 0), Spin::Spin180);
    b.place(city_corridor(), Pos::new(0, 1), Spin::No);
    b.place(city_corridor(), Pos::new(0, 2), Spin::No);
    let seeds = [(0, 0), (1, 0), (2, 0)];
    let first = b.search_object(seeds[0]);
    for s in seeds {
        let o = b.search_object(s);
        assert_eq!(o.segments[0], s);
        assert_eq!(sorted_refs(&o), sorted_refs(&first));
        assert_eq!(sorted_open(&o), sorted_open(&first));
    }
    assert_eq!(sorted_refs(&first), vec![(0, 0), (1, 0), (2, 0)]);
    assert_eq!(sorted_open(&first).len(), 2);
}

#[test]
fn city_closed_by_four_edges_is_complete() {
    let mut b = new_board();
    b.place(city_all(), Pos::new(0, 0), Spin::No);
    b.place(city_edge(), Pos::new(0, -1), Spin::Spin180);
    b.place(city_edge(), Pos::new(1, 0), Spin::CounterClockwise);
    b.place(city_edge(), Pos::new(0, 1), Spin::No);
    b.place(city_edge(), Pos::new(-1, 0), Spin::Clockwise);
    let o = b.search_object((0, 0));
    assert_eq!(o.segments.len(), 5);
    assert_eq!(sorted_refs(&o), vec![(0, 0), (1, 0), (2, 0), (3, 0), (4, 0)]);
    assert!(o.opened_side.is_empty());
    assert!(o.complete(&b));
    let edge = b.search_object((3, 0));
    assert!(edge.complete(&b));
}

#[test]
fn open_exit_makes_region_incomplete() {
    let mut b = new_board();
    b.place(city_edge(), Pos::new(0, 0), Spin::Spin180);
    b.place(city_edge(), Pos::new(0, 1), Spin::No);
    let closed = b.search_object((0, 0));
    assert_eq!(closed.segments.len(), 2);
    assert!(closed.opened_side.is_empty());
    assert!(closed.complete(&b));

    let mut c = new_board();
    c.place(city_edge(), Pos::new(0, 0), Spin::Spin180);
    c.place(city_corridor(), Pos::new(0, 1), Spin::No);
    let open = c.search_object((0, 0));
    assert_eq!(open.segments.len(), 2);
    assert_eq!(
        sorted_open(&open),
        vec![
            (Pos::new(0, 1), Dir4::Down.id() as u8, false),
            (Pos::new(0, 1), Dir4::Down.id() as u8, true),
        ]
    );
    assert!(!open.complete(&c));
    c.place(city_edge(), Pos::new(0, 2), Spin::No);
    let closed_again = c.search_object((0, 0));
    assert_eq!(closed_again.segments.len(), 3);
    assert!(closed_again.complete(&c));
}

/// A road on both edges left and right, but holding only one half of the
/// left edge; the other half belongs to the upper field.
fn half_road() -> Tile {
    Tile {
        segs: vec![
            Segment {
                typ: road(),
                direction: vec![
                    Dir8::new(Dir4::Left, true),
                    Dir8::new(Dir4::Right, true),
                    Dir8::new(Dir4::Right, false),
                ],
                hint: Hint::default(),
            },
            Segment {
                typ: field(),
                direction: vec![Dir8::new(Dir4::Up, true), Dir8::new(Dir4::Up, false), Dir8::new(Dir4::Left, false)],
                hint: Hint::default(),
            },
            seg(field(), &[Dir4::Down]),
        ],
        features: vec![],
        sides: [SideType::Field, SideType::Road, SideType::Field, SideType::Road],
    }
}

#[test]
fn wall_is_not_open() {
    let mut b = new_board();
    b.place(straight_road(), Pos::new(0, 0), Spin::No);
    assert!(b.can_place(half_road(), Pos::new(1, 0), Spin::No));
    b.place(half_road(), Pos::new(1, 0), Spin::No);
    let o = b.search_object((0, 0));
    assert_eq!(o.segments, vec![(0, 0), (1, 0)]);
    let open = sorted_open(&o);
    assert_eq!(
        open,
        vec![
            (Pos::new(0, 0), Dir4::Left.id() as u8, false),
            (Pos::new(0, 0), Dir4::Left.id() as u8, true),
            (Pos::new(1, 0), Dir4::Right.id() as u8, false),
            (Pos::new(1, 0), Dir4::Right.id() as u8, true),
        ]
    );
    assert!(!open.contains(&(Pos::new(0, 0), Dir4::Right.id() as u8, true)));
}

#[test]
fn field_region_never_complete() {
    let mut b = new_board();
    b.place(field_all(), Pos::new(0, 0), Spin::No);
    let o = Object::create((0, 0));
    assert!(o.opened_side.is_empty());
    assert!(!o.complete(&b));
    let searched = b.search_object((0, 0));
    assert_eq!(searched.opened_side.len(), 8);
    assert!(!searched.complete(&b));
    b.place(city_all(), Pos::new(5, 5), Spin::No);
    let lone_city = Object::create((1, 0));
    assert!(lone_city.complete(&b));
}

#[test]
fn push_refuses_other_kind() {
    let mut b = new_board();
    b.place(straight_road(), Pos::new(0, 0), Spin::No);
    let mut o = Object::create((0, 0));
    assert!(matches!(o.push(&b, (0, 1)), Err(GameError::HeterogeneousMerge)));
    assert_eq!(o.segments, vec![(0, 0)]);
    b.place(straight_road(), Pos::new(1, 0), Spin::No);
    assert!(o.push(&b, (1, 0)).is_ok());
    assert_eq!(o.segments, vec![(0, 0), (1, 0)]);
    assert!(o.typ(&b).is_same_type(&road()));
}

fn token(kind: Token, player: usize) -> PlacedToken {
    PlacedToken { token: kind, belonging: vec![], public_belonging: vec![], player_id: player }
}

#[test]
fn region_tokens_and_occupation() {
    let mut b = new_board();
    b.place(straight_road(), Pos::new(0, 0), Spin::No);
    b.place(straight_road(), Pos::new(1, 0), Spin::No);
    let o = b.search_object((0, 0));
    assert!(!o.occupied(&b));
    assert!(o.iterate_token(&b).is_empty());
    b.tiles[1].segs[0].tokens.push(token(Token::BigMeeple, 1));
    b.tiles[0].segs[0].tokens.push(token(Token::Meeple, 0));
    assert!(o.occupied(&b));
    let toks = o.iterate_token(&b);
    assert_eq!(toks.len(), 2);
    assert_eq!(toks[0].token, Token::Meeple);
    assert_eq!(toks[1].token, Token::BigMeeple);
    assert_eq!(o.iterate_token(&b).len(), 2);
}

#[test]
fn monastery_needs_all_eight_neighbours() {
    let mut b = new_board();
    let f = PlacedFeature::create(Feature { typ: FeatureType::Monastry }, Pos::new(0, 0));
    assert!(f.tokens.is_empty());
    b.place(field_all(), Pos::new(0, 0), Spin::No);
    let around = Pos::new(0, 0).around();
    for p in &around[..7] {
        b.place(field_all(), *p, Spin::No);
    }
    assert!(!f.complete(&b));
    b.place(field_all(), around[7], Spin::No);
    assert!(f.complete(&b));
    assert!(!f.occupied(&b));
}

#[test]
fn takeback_returns_tokens_to_owners() {
    let mut b = new_board();
    b.players[0].tokens = vec![1, 0];
    b.players[1].tokens = vec![3, 1];
    b.players[1].belonging_tokens = vec![1, 0];
    let first = b.players[0].place_token(Token::Meeple).ok().unwrap();
    let mut second = b.players[1].place_token(Token::BigMeeple).ok().unwrap();
    let builder = b.players[1].place_belonging(BelongingToken::Builder).ok().unwrap();
    second.belonging.push(builder);
    assert_eq!(b.players[0].tokens, vec![0, 0]);
    assert_eq!(b.players[1].tokens, vec![3, 0]);
    assert_eq!(b.players[1].belonging_tokens, vec![0, 0]);
    let mut s = PlacedSegment::create(Pos::new(0, 0), seg(road(), &[Dir4::Left]), Spin::No);
    s.tokens.push(first);
    s.tokens.push(second);
    b.takeback_token_from_segment(&mut s);
    assert!(s.tokens.is_empty());
    assert_eq!(b.players[0].tokens, vec![1, 0]);
    assert_eq!(b.players[1].tokens, vec![3, 1]);
    assert_eq!(b.players[1].belonging_tokens, vec![1, 0]);
}

#[test]
fn takeback_single_token_with_rider_of_other_player() {
    let mut b = new_board();
    let mut t = token(Token::Meeple, 0);
    t.belonging.push(PlacedBelongingToken { token: BelongingToken::Pig, player_id: 1 });
    b.takeback_token(t);
    assert_eq!(b.players[0].tokens, vec![1]);
    assert!(b.players[1].tokens.is_empty());
    assert_eq!(b.players[1].belonging_tokens, vec![0, 1]);
}
