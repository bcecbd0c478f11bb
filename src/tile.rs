//! Tile templates and tiles laid on the board.
use vstd::prelude::*;
use core::ops::Neg;
use crate::feature::Feature;
use crate::geometry::{lemma_rotate_inverse, Dir4, Dir8, Pos, SideType, Spin};
use crate::segment::{rotated, PlacedSegment, Segment, SegmentType};

verus! {

/// No point lies in both lists.
pub open spec fn points_apart(a: Seq<Dir8>, b: Seq<Dir8>) -> bool {
    forall|d: Dir8| a.contains(d) ==> !b.contains(d)
}

/// The side shown toward board edge `d` by a tile with template sides
/// `sides` turned by `s`.
pub open spec fn side_toward(sides: [SideType; 4], d: Dir4, s: Spin) -> SideType {
    sides@[d.spec_rotate(s.spec_neg()).spec_id()]
}

/// A segment of kind `kind` holds point `d`.
pub open spec fn holds_point(seg: PlacedSegment, d: Dir8, kind: int) -> bool {
    seg.typ.kind() == kind && seg.direction@.contains(d)
}

/// A tile template from the catalog.
#[derive(Clone)]
pub struct Tile {
    pub segs: Vec<Segment>,
    pub features: Vec<Feature>,
    pub sides: [SideType; 4],
}

impl Tile {
    /// Two features of one kind never share a perimeter point.
    pub open spec fn wf(self) -> bool {
        forall|i: int, j: int|
            0 <= i < self.segs@.len() && 0 <= j < self.segs@.len() && i != j
                && #[trigger] self.segs@[i].typ.kind() == #[trigger] self.segs@[j].typ.kind()
                ==> points_apart(self.segs@[i].direction@, self.segs@[j].direction@)
    }

    /// Whether this tile, turned by `self_spin`, may lie next to `other`,
    /// which is across edge `direction`: the two facing sides must be of one
    /// type.
    pub fn can_connect(&self, self_spin: Spin, other: &PlacedTile, direction: Dir4) -> (r: bool)
        ensures
            r == (side_toward(self.sides, direction, self_spin) == side_toward(
                other.sides,
                direction.spec_neg(),
                other.orient,
            )),
    {
        let side = self.sides[direction.rotate(self_spin.neg()).id()];
        let other_side = other.sides[direction.neg().rotate(other.orient.neg()).id()];
        side == other_side
    }
}

/// A tile on the board.
pub struct PlacedTile {
    pub pos: Pos,
    pub segs: Vec<PlacedSegment>,
    pub sides: [SideType; 4],
    pub orient: Spin,
}

impl PlacedTile {
    /// Every feature sits at the tile's position, and two features of one
    /// kind never share a perimeter point.
    pub open spec fn wf(self) -> bool {
        &&& (forall|i: int| 0 <= i < self.segs@.len() ==> (#[trigger] self.segs@[i]).pos == self.pos)
        &&& (forall|i: int, j: int|
            0 <= i < self.segs@.len() && 0 <= j < self.segs@.len() && i != j
                && #[trigger] self.segs@[i].typ.kind() == #[trigger] self.segs@[j].typ.kind()
                ==> points_apart(self.segs@[i].direction@, self.segs@[j].direction@))
    }

    /// `self` is `tile` laid at `pos` turned by `orient`.
    pub open spec fn placed_from(self, pos: Pos, tile: Tile, orient: Spin) -> bool {
        &&& self.pos == pos
        &&& self.sides == tile.sides
        &&& self.orient == orient
        &&& self.segs@.len() == tile.segs@.len()
        &&& (forall|k: int|
            0 <= k < self.segs@.len() ==> (#[trigger] self.segs@[k]).placed_from(
                pos,
                tile.segs@[k],
                orient,
            ))
    }

    pub fn create(pos: Pos, tile: Tile, orient: Spin) -> (r: PlacedTile)
        ensures
            r.placed_from(pos, tile, orient),
            tile.wf() ==> r.wf(),
    {
        let ghost old_tile = tile;
        let Tile { segs, features, sides } = tile;
        let mut rest = segs;
        let mut placed: Vec<PlacedSegment> = Vec::new();
        while rest.len() > 0
            invariant
                placed@.len() + rest@.len() == old_tile.segs@.len(),
                rest@ == old_tile.segs@.subrange(placed@.len() as int, old_tile.segs@.len() as int),
                forall|k: int|
                    0 <= k < placed@.len() ==> (#[trigger] placed@[k]).placed_from(
                        pos,
                        old_tile.segs@[k],
                        orient,
                    ),
            decreases rest@.len(),
        {
            let seg = rest.remove(0);
            placed.push(PlacedSegment::create(pos, seg, orient));
        }
        let r = PlacedTile { pos: pos, segs: placed, sides: sides, orient: orient };
        proof {
            if old_tile.wf() {
                assert forall|i: int, j: int|
                    0 <= i < r.segs@.len() && 0 <= j < r.segs@.len() && i != j
                        && #[trigger] r.segs@[i].typ.kind() == #[trigger] r.segs@[j].typ.kind()
                        implies points_apart(r.segs@[i].direction@, r.segs@[j].direction@) by {
                    assert(r.segs@[i].placed_from(pos, old_tile.segs@[i], orient));
                    assert(r.segs@[j].placed_from(pos, old_tile.segs@[j], orient));
                    let a = old_tile.segs@[i].direction@;
                    let b = old_tile.segs@[j].direction@;
                    assert(points_apart(a, b));
                    assert forall|d: Dir8| rotated(a, orient).contains(d) implies !rotated(
                        b,
                        orient,
                    ).contains(d) by {
                        let x = choose|x: int| 0 <= x < a.len() && rotated(a, orient)[x] == d;
                        if rotated(b, orient).contains(d) {
                            let y = choose|y: int| 0 <= y < b.len() && rotated(b, orient)[y] == d;
                            lemma_rotate_inverse(a[x].dir, orient);
                            lemma_rotate_inverse(b[y].dir, orient);
                            assert(a[x] == b[y]);
                            assert(a.contains(a[x]));
                        }
                    }
                }
            }
        }
        r
    }

    /// Index of the first feature of kind `kind` that holds point `dir`.
    pub open spec fn first_holding(self, dir: Dir8, kind: int) -> Option<int> {
        if exists|i: int| 0 <= i < self.segs@.len() && holds_point(self.segs@[i], dir, kind) {
            Some(
                choose|i: int|
                    0 <= i < self.segs@.len() && holds_point(self.segs@[i], dir, kind) && forall|
                        j: int,
                    |
                        0 <= j < i ==> !holds_point(#[trigger] self.segs@[j], dir, kind),
            )
        } else {
            None
        }
    }

    pub(crate) fn find_seg_index(&self, dir: Dir8, typ: &SegmentType) -> (r: Option<usize>)
        ensures
            match r {
                Some(i) => i < self.segs@.len() && holds_point(self.segs@[i as int], dir, typ.kind())
                    && forall|j: int| 0 <= j < i ==> !holds_point(#[trigger] self.segs@[j], dir, typ.kind()),
                None => forall|j: int|
                    0 <= j < self.segs@.len() ==> !holds_point(#[trigger] self.segs@[j], dir, typ.kind()),
            },
    {
        let mut i: usize = 0;
        while i < self.segs.len()
            invariant
                i <= self.segs@.len(),
                forall|j: int| 0 <= j < i ==> !holds_point(#[trigger] self.segs@[j], dir, typ.kind()),
            decreases self.segs@.len() - i,
        {
            let seg = &self.segs[i];
            if seg.typ.is_same_type(typ) {
                let mut k: usize = 0;
                while k < seg.direction.len()
                    invariant
                        k <= seg.direction@.len(),
                        i < self.segs@.len(),
                        *seg == self.segs@[i as int],
                        seg.typ.kind() == typ.kind(),
                        forall|j: int| 0 <= j < i ==> !holds_point(#[trigger] self.segs@[j], dir, typ.kind()),
                        forall|m: int| 0 <= m < k ==> seg.direction@[m] != dir,
                    decreases seg.direction@.len() - k,
                {
                    if seg.direction[k] == dir {
                        assert(seg.direction@[k as int] == dir);
                        assert(holds_point(self.segs@[i as int], dir, typ.kind()));
                        return Some(i);
                    }
                    k = k + 1;
                }
            }
            i = i + 1;
        }
        None
    }

    /// The first feature of the given kind that holds the given point.
    pub fn find_seg(&self, dir: Dir8, typ: &SegmentType) -> (r: Option<&PlacedSegment>)
        ensures
            match r {
                Some(s) => exists|i: int|
                    0 <= i < self.segs@.len() && *s == self.segs@[i] && holds_point(
                        self.segs@[i],
                        dir,
                        typ.kind(),
                    ) && forall|j: int|
                        0 <= j < i ==> !holds_point(#[trigger] self.segs@[j], dir, typ.kind()),
                None => forall|j: int|
                    0 <= j < self.segs@.len() ==> !holds_point(#[trigger] self.segs@[j], dir, typ.kind()),
            },
    {
        match self.find_seg_index(dir, typ) {
            Some(i) => Some(&self.segs[i]),
            None => None,
        }
    }
}

} // verus!
