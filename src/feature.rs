//! Point features of a tile, scored by what surrounds them.
use vstd::prelude::*;
use crate::board::Board;
use crate::geometry::{around_offset, Pos};
use crate::object::CanScore;
use crate::token::PlacedToken;

verus! {

#[derive(Clone, Copy, PartialEq, Eq, Debug, Structural)]
pub enum FeatureType {
    Monastry,
}

/// A point feature of a tile template.
#[derive(Clone, Copy, PartialEq, Eq, Debug, Structural)]
pub struct Feature {
    pub typ: FeatureType,
}

/// A point feature on the board.
pub struct PlacedFeature {
    pub typ: FeatureType,
    pub tokens: Vec<PlacedToken>,
    pub pos: Pos,
}

impl PlacedFeature {
    pub fn create(feature: Feature, pos: Pos) -> (r: PlacedFeature)
        ensures
            r.typ == feature.typ,
            r.tokens@.len() == 0,
            r.pos == pos,
    {
        PlacedFeature { typ: feature.typ, tokens: Vec::new(), pos: pos }
    }
}

/// The `k`-th position around `pos`, clockwise from north.
pub open spec fn around_pos(pos: Pos, k: int) -> Pos {
    Pos { x: (pos.x + around_offset(k).0) as i32, y: (pos.y + around_offset(k).1) as i32 }
}

impl CanScore for PlacedFeature {
    open spec fn fits(&self, board: &Board) -> bool {
        self.pos.inner()
    }

    open spec fn tokens(&self, board: &Board) -> Seq<PlacedToken> {
        self.tokens@
    }

    /// A monastery is complete when all eight positions around it hold a
    /// tile.
    open spec fn is_complete(&self, board: &Board) -> bool {
        match self.typ {
            FeatureType::Monastry => forall|k: int| 0 <= k < 8 ==> board.has_tile(around_pos(self.pos, k)),
        }
    }

    fn complete(&self, board: &Board) -> (r: bool) {
        match self.typ {
            FeatureType::Monastry => {
                let around = self.pos.around();
                let mut k: usize = 0;
                while k < around.len()
                    invariant
                        k <= around@.len(),
                        around@.len() == 8,
                        forall|j: int|
                            0 <= j < 8 ==> around@[j] == around_pos(self.pos, j),
                        forall|j: int| 0 <= j < k ==> board.has_tile(around_pos(self.pos, j)),
                    decreases around@.len() - k,
                {
                    if !board.have_tile(around[k]) {
                        return false;
                    }
                    k = k + 1;
                }
                true
            },
        }
    }

    fn iterate_token<'a>(&'a self, board: &'a Board) -> (r: Vec<&'a PlacedToken>) {
        let mut r: Vec<&'a PlacedToken> = Vec::new();
        let mut k: usize = 0;
        while k < self.tokens.len()
            invariant
                k <= self.tokens@.len(),
                r@.len() == k,
                forall|m: int| 0 <= m < k ==> *r@[m] == self.tokens@[m],
            decreases self.tokens@.len() - k,
        {
            r.push(&self.tokens[k]);
            k = k + 1;
        }
        r
    }
}

} // verus!
