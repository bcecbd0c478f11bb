//! Features inside a tile: a typed set of perimeter points.
use vstd::prelude::*;
use crate::geometry::{Dir8, Pos, Spin};
use crate::tilepic::Hint;
use crate::token::PlacedToken;

verus! {

/// Kind of a feature, with what each kind carries.
#[derive(Clone, Hash, PartialEq, Eq, Debug)]
pub enum SegmentType {
    CitySegment { pennant: u8 },
    RoadSegment { adj_road_city: Vec<usize> },
    FieldSegment { adj_city: Vec<usize> },
    RiverSegment,
}

impl SegmentType {
    /// The kind alone, without what it carries.
    pub open spec fn kind(self) -> int {
        match self {
            SegmentType::CitySegment { .. } => 0,
            SegmentType::RoadSegment { .. } => 1,
            SegmentType::FieldSegment { .. } => 2,
            SegmentType::RiverSegment => 3,
        }
    }

    pub open spec fn spec_is_field(self) -> bool {
        self is FieldSegment
    }

    /// Whether both are of one kind; what they carry is not compared.
    pub fn is_same_type(&self, other: &SegmentType) -> (r: bool)
        ensures
            r == (self.kind() == other.kind()),
    {
        match (self, other) {
            (SegmentType::CitySegment { .. }, SegmentType::CitySegment { .. }) => true,
            (SegmentType::RoadSegment { .. }, SegmentType::RoadSegment { .. }) => true,
            (SegmentType::FieldSegment { .. }, SegmentType::FieldSegment { .. }) => true,
            (SegmentType::RiverSegment, SegmentType::RiverSegment) => true,
            _ => false,
        }
    }

    pub fn is_field(&self) -> (r: bool)
        ensures
            r == self.spec_is_field(),
            r == (self.kind() == 2),
    {
        match self {
            SegmentType::FieldSegment { .. } => true,
            _ => false,
        }
    }
}

/// A feature of a tile template.
#[derive(Clone)]
pub struct Segment {
    pub typ: SegmentType,
    pub direction: Vec<Dir8>,
    pub hint: Hint,
}

/// The points of a template turned by `s`.
pub open spec fn rotated(points: Seq<Dir8>, s: Spin) -> Seq<Dir8> {
    points.map_values(|d: Dir8| d.spec_rotate(s))
}

/// A feature of a tile on the board.
pub struct PlacedSegment {
    pub pos: Pos,
    pub typ: SegmentType,
    pub direction: Vec<Dir8>,
    pub tokens: Vec<PlacedToken>,
    pub hint: Hint,
}

impl PlacedSegment {
    /// `self` is `seg` laid at `pos` turned by `orient`, with no token on it.
    pub open spec fn placed_from(self, pos: Pos, seg: Segment, orient: Spin) -> bool {
        &&& self.pos == pos
        &&& self.typ == seg.typ
        &&& self.direction@ == rotated(seg.direction@, orient)
        &&& self.tokens@.len() == 0
        &&& self.hint == seg.hint
    }

    pub fn create(pos: Pos, seg: Segment, orient: Spin) -> (r: PlacedSegment)
        ensures
            r.placed_from(pos, seg, orient),
    {
        let ghost old_seg = seg;
        let Segment { typ, direction, hint } = seg;
        let mut turned: Vec<Dir8> = Vec::new();
        let mut k: usize = 0;
        while k < direction.len()
            invariant
                k <= direction@.len(),
                turned@ == rotated(direction@.subrange(0, k as int), orient),
            decreases direction@.len() - k,
        {
            turned.push(direction[k].rotate(orient));
            proof {
                assert(direction@.subrange(0, k + 1) == direction@.subrange(0, k as int).push(
                    direction@[k as int],
                ));
            }
            k = k + 1;
        }
        proof {
            assert(direction@.subrange(0, k as int) == direction@);
        }
        PlacedSegment { pos: pos, typ: typ, direction: turned, tokens: Vec::new(), hint: hint }
    }

    pub fn occupied(&self) -> (r: bool)
        ensures
            r == (self.tokens@.len() > 0),
    {
        self.tokens.len() > 0
    }
}

} // verus!
