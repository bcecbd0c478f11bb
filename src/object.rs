//! Regions: connected features of one kind, as found on the board.
use vstd::prelude::*;
use crate::board::{Board, SegRef};
use crate::error::GameError;
use crate::geometry::{Dir8, Pos};
use crate::segment::SegmentType;
use crate::token::PlacedToken;

verus! {

/// Something that markers can lie on and that can be scored once complete.
pub trait CanScore {
    /// Every part of it exists on `board`.
    spec fn fits(&self, board: &Board) -> bool;

    /// The tokens lying on it, in order.
    spec fn tokens(&self, board: &Board) -> Seq<PlacedToken>;

    /// It can be scored.
    spec fn is_complete(&self, board: &Board) -> bool;

    /// Whether some token lies on it.
    fn occupied(&self, board: &Board) -> (r: bool)
        requires
            self.fits(board),
        ensures
            r == (self.tokens(board).len() > 0),
    {
        self.iterate_token(board).len() > 0
    }

    fn complete(&self, board: &Board) -> (r: bool)
        requires
            self.fits(board),
        ensures
            r == self.is_complete(board),
    ;

    /// The tokens lying on it, gathered afresh on each call.
    fn iterate_token<'a>(&'a self, board: &'a Board) -> (r: Vec<&'a PlacedToken>)
        requires
            self.fits(board),
        ensures
            r@.len() == self.tokens(board).len(),
            forall|k: int| 0 <= k < r@.len() ==> *r@[k] == self.tokens(board)[k],
    ;
}

/// The tokens on the features `refs` of `board`, feature after feature.
pub open spec fn tokens_on(board: Board, refs: Seq<SegRef>) -> Seq<PlacedToken>
    decreases refs.len(),
{
    if refs.len() == 0 {
        Seq::empty()
    } else {
        tokens_on(board, refs.drop_last()) + board.seg_at(refs.last()).tokens@
    }
}

/// A region: the features it joins, as references into a board, and the
/// perimeter points of those features that face an empty position.
pub struct Object {
    pub segments: Vec<SegRef>,
    pub opened_side: Vec<(Pos, Dir8)>,
}

impl Object {
    /// A region made of one feature.
    pub fn create(seg: SegRef) -> (r: Object)
        ensures
            r.segments@ == seq![seg],
            r.opened_side@.len() == 0,
    {
        Object { segments: vec![seg], opened_side: Vec::new() }
    }

    /// Adds a feature to the region; fails, changing nothing, when it is not
    /// of the region's kind.
    pub fn push(&mut self, board: &Board, seg: SegRef) -> (r: Result<(), GameError>)
        requires
            board.valid_ref(seg),
            forall|i: int| 0 <= i < old(self).segments@.len() ==> board.valid_ref(#[trigger] old(self).segments@[i]),
        ensures
            old(self).segments@.len() == 0 || board.seg_at(old(self).segments@[0]).typ.kind()
                == board.seg_at(seg).typ.kind() ==> r is Ok && final(self).segments@ == old(self).segments@.push(seg) && final(self).opened_side@ == old(self).opened_side@,
            !(old(self).segments@.len() == 0 || board.seg_at(old(self).segments@[0]).typ.kind()
                == board.seg_at(seg).typ.kind()) ==> r == Err::<(), GameError>(
                GameError::HeterogeneousMerge,
            ) && *final(self) == *old(self),
    {
        if self.segments.len() > 0 {
            let first = self.segments[0];
            if !board.tiles[first.0].segs[first.1].typ.is_same_type(&board.tiles[seg.0].segs[seg.1].typ) {
                return Err(GameError::HeterogeneousMerge);
            }
        }
        self.segments.push(seg);
        Ok(())
    }

    /// Kind of the region: that of its first feature.
    pub fn typ<'a>(&self, board: &'a Board) -> (r: &'a SegmentType)
        requires
            self.fits(board),
        ensures
            *r == board.seg_at(self.segments@[0]).typ,
    {
        let first = self.segments[0];
        &board.tiles[first.0].segs[first.1].typ
    }
}

impl CanScore for Object {
    open spec fn fits(&self, board: &Board) -> bool {
        &&& self.segments@.len() > 0
        &&& (forall|i: int| 0 <= i < self.segments@.len() ==> board.valid_ref(#[trigger] self.segments@[i]))
    }

    open spec fn tokens(&self, board: &Board) -> Seq<PlacedToken> {
        tokens_on(*board, self.segments@)
    }

    /// A region of fields is never complete; any other region is complete
    /// when no perimeter point of it faces an empty position.
    open spec fn is_complete(&self, board: &Board) -> bool {
        !board.seg_at(self.segments@[0]).typ.spec_is_field() && self.opened_side@.len() == 0
    }

    fn complete(&self, board: &Board) -> (r: bool) {
        if self.typ(board).is_field() {
            return false;
        }
        self.opened_side.len() == 0
    }

    fn iterate_token<'a>(&'a self, board: &'a Board) -> (r: Vec<&'a PlacedToken>) {
        let mut r: Vec<&'a PlacedToken> = Vec::new();
        let mut i: usize = 0;
        while i < self.segments.len()
            invariant
                self.fits(board),
                i <= self.segments@.len(),
                r@.len() == tokens_on(*board, self.segments@.subrange(0, i as int)).len(),
                forall|k: int|
                    0 <= k < r@.len() ==> *r@[k] == tokens_on(*board, self.segments@.subrange(0, i as int))[k],
            decreases self.segments@.len() - i,
        {
            let sr = self.segments[i];
            let toks = &board.tiles[sr.0].segs[sr.1].tokens;
            let ghost before = tokens_on(*board, self.segments@.subrange(0, i as int));
            proof {
                assert(self.segments@.subrange(0, i + 1).drop_last() == self.segments@.subrange(0, i as int));
                assert(tokens_on(*board, self.segments@.subrange(0, i + 1)) == before + toks@);
            }
            let mut k: usize = 0;
            while k < toks.len()
                invariant
                    k <= toks@.len(),
                    r@.len() == before.len() + k,
                    forall|m: int| 0 <= m < r@.len() ==> *r@[m] == (before + toks@)[m],
                decreases toks@.len() - k,
            {
                r.push(&toks[k]);
                k = k + 1;
            }
            i = i + 1;
        }
        proof {
            assert(self.segments@.subrange(0, i as int) == self.segments@);
        }
        r
    }
}

} // verus!
