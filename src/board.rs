//! The board: tiles laid on the grid, the players and their turns, and the
//! return of tokens to their owners.
use vstd::prelude::*;
use std::rc::Rc;
use crate::extension::ExtensionState;
use crate::geometry::{Dir4, Pos, Spin};
use crate::player::Player;
use crate::region::appends_tile;
use crate::token::{BelongingToken, PlacedBelongingToken, PlacedToken, Token};
use crate::segment::PlacedSegment;
use crate::tile::{side_toward, PlacedTile, Tile};

verus! {

/// A feature on the board: the index of its tile in the board's table and the
/// index of the feature within that tile.
pub type SegRef = (usize, usize);

/// The game state that the rules read and change.
pub struct Board {
    /// Tiles laid so far, one per position; an index into this table stays
    /// valid for the rest of the game.
    pub tiles: Vec<PlacedTile>,
    pub stack: Vec<Tile>,
    pub players: Vec<Player>,
    pub extension: Rc<ExtensionState>,
    pub current_player_id: usize,
}

impl Board {
    /// Some tile lies at `p`.
    pub open spec fn has_tile(self, p: Pos) -> bool {
        exists|i: int| 0 <= i < self.tiles@.len() && (#[trigger] self.tiles@[i]).pos == p
    }

    /// At most one tile per position, every tile well formed and away from
    /// the edge of the coordinate range.
    pub open spec fn wf(self) -> bool {
        &&& (forall|i: int, j: int|
            0 <= i < self.tiles@.len() && 0 <= j < self.tiles@.len() && i != j
                ==> (#[trigger] self.tiles@[i]).pos != (#[trigger] self.tiles@[j]).pos)
        &&& (forall|i: int|
            0 <= i < self.tiles@.len() ==> (#[trigger] self.tiles@[i]).wf() && self.tiles@[i].pos.inner())
    }

    pub open spec fn valid_ref(self, r: SegRef) -> bool {
        r.0 < self.tiles@.len() && r.1 < self.tiles@[r.0 as int].segs@.len()
    }

    pub open spec fn seg_at(self, r: SegRef) -> PlacedSegment {
        self.tiles@[r.0 as int].segs@[r.1 as int]
    }

    pub open spec fn pos_of(self, r: SegRef) -> Pos {
        self.tiles@[r.0 as int].pos
    }

    /// Every neighbour of `pos` that holds a tile shows, on the edge facing
    /// `pos`, the side type that `tile` turned by `orient` shows toward it.
    pub open spec fn fits_at(self, tile: Tile, pos: Pos, orient: Spin) -> bool {
        forall|d: Dir4, i: int|
            0 <= i < self.tiles@.len() && (#[trigger] self.tiles@[i]).pos == #[trigger] pos.step(d) ==> side_toward(
                tile.sides,
                d,
                orient,
            ) == side_toward(self.tiles@[i].sides, d.spec_neg(), self.tiles@[i].orient)
    }

    /// A board with no tile, and players numbered from zero with empty
    /// pools.
    pub fn create(player_num: usize, extension: ExtensionState) -> (r: Board)
        ensures
            r.tiles@.len() == 0,
            r.stack@.len() == 0,
            r.players@.len() == player_num,
            forall|i: int| 0 <= i < player_num ==> (#[trigger] r.players@[i]).id == i,
            forall|i: int, t: Token| 0 <= i < player_num ==> #[trigger] r.players@[i].token_count(t) == 0,
            forall|i: int, b: BelongingToken|
                0 <= i < player_num ==> #[trigger] r.players@[i].belonging_count(b) == 0,
            *r.extension == extension,
            r.current_player_id == 0,
            r.wf(),
    {
        let extension: Rc<ExtensionState> = Rc::new(extension);
        let mut players: Vec<Player> = Vec::new();
        let mut x: usize = 0;
        while x < player_num
            invariant
                x <= player_num,
                players@.len() == x,
                forall|i: int| 0 <= i < x ==> (#[trigger] players@[i]).id == i,
                forall|i: int, t: Token| 0 <= i < x ==> #[trigger] players@[i].token_count(t) == 0,
                forall|i: int, b: BelongingToken|
                    0 <= i < x ==> #[trigger] players@[i].belonging_count(b) == 0,
            decreases player_num - x,
        {
            players.push(Player::create(x));
            x = x + 1;
        }
        Board {
            tiles: Vec::new(),
            stack: Vec::new(),
            players: players,
            extension: extension,
            current_player_id: 0,
        }
    }

    /// Whether `tile`, turned by `orient`, may be laid at `pos`: each
    /// neighbouring tile must show the same side type on the shared edge.
    pub fn can_place(&self, tile: Tile, pos: Pos, orient: Spin) -> (r: bool)
        requires
            self.wf(),
            pos.inner(),
        ensures
            r == self.fits_at(tile, pos, orient),
    {
        let mut diri: usize = 0;
        while diri < 4
            invariant
                diri <= 4,
                self.wf(),
                pos.inner(),
                forall|d: Dir4, i: int|
                    d.spec_id() < diri && 0 <= i < self.tiles@.len() && (#[trigger] self.tiles@[i]).pos
                        == #[trigger] pos.step(d) ==> side_toward(tile.sides, d, orient) == side_toward(
                        self.tiles@[i].sides,
                        d.spec_neg(),
                        self.tiles@[i].orient,
                    ),
            decreases 4 - diri,
        {
            let dir = Dir4::from_id(diri);
            match self.find_tile(pos + dir) {
                Some(i) => {
                    if !tile.can_connect(orient, &self.tiles[i], dir) {
                        return false;
                    }
                    proof {
                        assert forall|j: int|
                            0 <= j < self.tiles@.len() && (#[trigger] self.tiles@[j]).pos == pos.step(
                                dir,
                            ) implies j == i by {}
                    }
                },
                None => {},
            }
            diri = diri + 1;
        }
        true
    }

    /// Lays `tile` at `pos` turned by `orient`, replacing any tile there. The
    /// caller checks first, with `can_place`, that it fits.
    pub fn place(&mut self, tile: Tile, pos: Pos, orient: Spin)
        requires
            old(self).wf(),
            pos.inner(),
            tile.wf(),
            old(self).fits_at(tile, pos, orient),
        ensures
            final(self).wf(),
            final(self).tiles@.len() == old(self).tiles@.len() + if old(self).has_tile(pos) {
                0int
            } else {
                1int
            },
            forall|i: int|
                0 <= i < old(self).tiles@.len() && old(self).tiles@[i].pos != pos ==> #[trigger] final(self).tiles@[i] == old(self).tiles@[i],
            forall|i: int|
                0 <= i < final(self).tiles@.len() && (#[trigger] final(self).tiles@[i]).pos == pos
                    ==> final(self).tiles@[i].placed_from(pos, tile, orient),
            forall|p: Pos| #[trigger] final(self).has_tile(p) <==> (old(self).has_tile(p) || p == pos),
            !old(self).has_tile(pos) ==> appends_tile(*old(self), *final(self)),
            final(self).players == old(self).players,
            final(self).stack == old(self).stack,
            final(self).extension == old(self).extension,
            final(self).current_player_id == old(self).current_player_id,
    {
        let ghost old_tiles = self.tiles@;
        let placed = PlacedTile::create(pos, tile, orient);
        match self.find_tile(pos) {
            Some(i) => {
                self.tiles.set(i, placed);
                proof {
                    assert forall|p: Pos| #[trigger] self.has_tile(p) <==> (old_tiles.len() > 0 && (
                    exists|j: int| 0 <= j < old_tiles.len() && (#[trigger] old_tiles[j]).pos == p)
                        || p == pos) by {
                        if exists|j: int| 0 <= j < old_tiles.len() && (#[trigger] old_tiles[j]).pos == p {
                            let j = choose|j: int| 0 <= j < old_tiles.len() && (#[trigger] old_tiles[j]).pos == p;
                            if j != i {
                                assert(self.tiles@[j] == old_tiles[j]);
                            } else {
                                assert(self.tiles@[i as int].pos == pos);
                            }
                        }
                        if p == pos {
                            assert(self.tiles@[i as int].pos == pos);
                        }
                        if self.has_tile(p) {
                            let j = choose|j: int| 0 <= j < self.tiles@.len() && (#[trigger] self.tiles@[j]).pos == p;
                            if j != i {
                                assert(self.tiles@[j] == old_tiles[j]);
                            }
                        }
                    }
                }
            },
            None => {
                self.tiles.push(placed);
                proof {
                    assert forall|p: Pos| #[trigger] self.has_tile(p) <==> (old(self).has_tile(p) || p == pos) by {
                        if old(self).has_tile(p) {
                            let j = choose|j: int| 0 <= j < old_tiles.len() && (#[trigger] old_tiles[j]).pos == p;
                            assert(self.tiles@[j] == old_tiles[j]);
                        }
                        if p == pos {
                            assert(self.tiles@[old_tiles.len() as int].pos == pos);
                        }
                        if self.has_tile(p) {
                            let j = choose|j: int| 0 <= j < self.tiles@.len() && (#[trigger] self.tiles@[j]).pos == p;
                            if j < old_tiles.len() {
                                assert(self.tiles@[j] == old_tiles[j]);
                            }
                        }
                    }
                }
            },
        }
    }

    /// Hands the turn to the next player.
    pub fn next_player(&mut self)
        requires
            old(self).players@.len() > 0,
        ensures
            final(self).current_player_id == (old(self).current_player_id + 1) % (old(self).players@.len() as int),
            final(self).tiles == old(self).tiles,
            final(self).players == old(self).players,
            final(self).stack == old(self).stack,
            final(self).extension == old(self).extension,
    {
        let n = self.players.len();
        let c = self.current_player_id;
        proof {
            vstd::arithmetic::div_mod::lemma_mod_bound(c as int, n as int);
        }
        self.current_player_id = (c % n + 1) % n;
        proof {
            if n == 1 {
                vstd::arithmetic::div_mod::lemma_mod_bound(c as int + 1, 1);
                vstd::arithmetic::div_mod::lemma_mod_bound(c as int % 1 + 1, 1);
            } else {
                vstd::arithmetic::div_mod::lemma_small_mod(1, n as nat);
                vstd::arithmetic::div_mod::lemma_add_mod_noop(c as int, 1, n as int);
            }
        }
    }

    /// Returns a token to the pool of the player it was drawn from, and each
    /// auxiliary marker riding on it to the pool of its own player.
    pub fn takeback_token(&mut self, token: PlacedToken)
        requires
            token.player_id < old(self).players@.len(),
            old(self).players@[token.player_id as int].token_count(token.token) < u32::MAX,
            forall|k: int|
                0 <= k < token.belonging@.len() ==> (#[trigger] token.belonging@[k]).player_id < old(
                    self).players@.len(),
            forall|p: int, b: BelongingToken|
                0 <= p < old(self).players@.len() ==> #[trigger] old(self).players@[p].belonging_count(b)
                    + markers_of(token.belonging@, p, b) <= u32::MAX,
        ensures
            final(self).players@.len() == old(self).players@.len(),
            forall|p: int|
                0 <= p < old(self).players@.len() ==> (#[trigger] final(self).players@[p]).id == old(
                    self).players@[p].id,
            forall|p: int, t: Token|
                0 <= p < old(self).players@.len() ==> #[trigger] final(self).players@[p].token_count(t)
                    == old(self).players@[p].token_count(t) + if p == token.player_id && t == token.token {
                    1int
                } else {
                    0int
                },
            forall|p: int, b: BelongingToken|
                0 <= p < old(self).players@.len() ==> #[trigger] final(self).players@[p].belonging_count(b)
                    == old(self).players@[p].belonging_count(b) + markers_of(token.belonging@, p, b),
            final(self).tiles == old(self).tiles,
            final(self).stack == old(self).stack,
            final(self).extension == old(self).extension,
            final(self).current_player_id == old(self).current_player_id,
    {
        let PlacedToken { token: kind, belonging, public_belonging, player_id } = token;
        let ghost all = belonging@;
        self.players[player_id].takeback_token(kind);
        let ghost mid = self.players@;
        let mut rest = belonging;
        while rest.len() > 0
            invariant
                self.players@.len() == mid.len(),
                forall|k: int|
                    0 <= k < rest@.len() ==> (#[trigger] rest@[k]).player_id < self.players@.len(),
                forall|p: int| 0 <= p < mid.len() ==> (#[trigger] self.players@[p]).id == mid[p].id,
                forall|p: int, t: Token|
                    0 <= p < mid.len() ==> #[trigger] self.players@[p].token_count(t) == mid[p].token_count(t),
                forall|p: int, b: BelongingToken|
                    0 <= p < mid.len() ==> #[trigger] self.players@[p].belonging_count(b) + markers_of(
                        rest@,
                        p,
                        b,
                    ) == mid[p].belonging_count(b) + markers_of(all, p, b),
                forall|p: int, b: BelongingToken|
                    0 <= p < mid.len() ==> #[trigger] mid[p].belonging_count(b) + markers_of(all, p, b)
                        <= u32::MAX,
                self.tiles == old(self).tiles,
                self.stack == old(self).stack,
                self.extension == old(self).extension,
                self.current_player_id == old(self).current_player_id,
            decreases rest@.len(),
        {
            let ghost before = self.players@;
            let ghost rest_before = rest@;
            let b = rest.pop().unwrap();
            proof {
                assert(rest@ == rest_before.drop_last());
                assert(b == rest_before.last());
                assert(self.players@[b.player_id as int].belonging_count(b.token) + markers_of(
                    rest_before,
                    b.player_id as int,
                    b.token,
                ) <= u32::MAX);
            }
            self.players[b.player_id].takeback_belonging(b.token);
            proof {
                assert forall|p: int, c: BelongingToken|
                    0 <= p < mid.len() implies #[trigger] self.players@[p].belonging_count(c) + markers_of(
                        rest@,
                        p,
                        c,
                    ) == mid[p].belonging_count(c) + markers_of(all, p, c) by {
                    assert(before[p].belonging_count(c) + markers_of(rest_before, p, c) == mid[p].belonging_count(c) + markers_of(all, p, c));
                    if p != b.player_id {
                        assert(self.players@[p] == before[p]);
                    }
                }
                assert forall|p: int, t: Token|
                    0 <= p < mid.len() implies #[trigger] self.players@[p].token_count(t) == mid[p].token_count(t) by {
                    if p != b.player_id {
                        assert(self.players@[p] == before[p]);
                    }
                }
                assert forall|p: int| 0 <= p < mid.len() implies (#[trigger] self.players@[p]).id == mid[p].id by {
                    if p != b.player_id {
                        assert(self.players@[p] == before[p]);
                    }
                }
                assert forall|k: int| 0 <= k < rest@.len() implies (#[trigger] rest@[k]).player_id < self.players@.len() by {
                    assert(rest@[k] == rest_before[k]);
                }
            }
        }
    }

    /// Takes every token off `segment` and returns each, with what rides on
    /// it, to the pools it was drawn from.
    pub fn takeback_token_from_segment(&mut self, segment: &mut PlacedSegment)
        requires
            forall|k: int|
                0 <= k < old(segment).tokens@.len() ==> tokens_returnable(
                    #[trigger] old(segment).tokens@[k],
                    old(self).players@.len() as int,
                ),
            forall|p: int, t: Token|
                0 <= p < old(self).players@.len() ==> #[trigger] old(self).players@[p].token_count(t)
                    + tokens_of(old(segment).tokens@, p, t) <= u32::MAX,
            forall|p: int, b: BelongingToken|
                0 <= p < old(self).players@.len() ==> #[trigger] old(self).players@[p].belonging_count(b)
                    + riders_of(old(segment).tokens@, p, b) <= u32::MAX,
        ensures
            final(segment).tokens@.len() == 0,
            final(segment).pos == old(segment).pos,
            final(segment).typ == old(segment).typ,
            final(segment).direction == old(segment).direction,
            final(segment).hint == old(segment).hint,
            final(self).players@.len() == old(self).players@.len(),
            forall|p: int|
                0 <= p < old(self).players@.len() ==> (#[trigger] final(self).players@[p]).id == old(
                    self).players@[p].id,
            forall|p: int, t: Token|
                0 <= p < old(self).players@.len() ==> #[trigger] final(self).players@[p].token_count(t)
                    == old(self).players@[p].token_count(t) + tokens_of(old(segment).tokens@, p, t),
            forall|p: int, b: BelongingToken|
                0 <= p < old(self).players@.len() ==> #[trigger] final(self).players@[p].belonging_count(b)
                    == old(self).players@[p].belonging_count(b) + riders_of(old(segment).tokens@, p, b),
            final(self).tiles == old(self).tiles,
            final(self).stack == old(self).stack,
            final(self).extension == old(self).extension,
            final(self).current_player_id == old(self).current_player_id,
    {
        let ghost all = segment.tokens@;
        let ghost start = self.players@;
        while segment.tokens.len() > 0
            invariant
                self.players@.len() == start.len(),
                forall|k: int|
                    0 <= k < segment.tokens@.len() ==> tokens_returnable(
                        #[trigger] segment.tokens@[k],
                        start.len() as int,
                    ),
                forall|p: int| 0 <= p < start.len() ==> (#[trigger] self.players@[p]).id == start[p].id,
                forall|p: int, t: Token|
                    0 <= p < start.len() ==> #[trigger] self.players@[p].token_count(t) + tokens_of(
                        segment.tokens@,
                        p,
                        t,
                    ) == start[p].token_count(t) + tokens_of(all, p, t),
                forall|p: int, b: BelongingToken|
                    0 <= p < start.len() ==> #[trigger] self.players@[p].belonging_count(b) + riders_of(
                        segment.tokens@,
                        p,
                        b,
                    ) == start[p].belonging_count(b) + riders_of(all, p, b),
                forall|p: int, t: Token|
                    0 <= p < start.len() ==> #[trigger] start[p].token_count(t) + tokens_of(all, p, t)
                        <= u32::MAX,
                forall|p: int, b: BelongingToken|
                    0 <= p < start.len() ==> #[trigger] start[p].belonging_count(b) + riders_of(all, p, b)
                        <= u32::MAX,
                segment.pos == old(segment).pos,
                segment.typ == old(segment).typ,
                segment.direction == old(segment).direction,
                segment.hint == old(segment).hint,
                self.tiles == old(self).tiles,
                self.stack == old(self).stack,
                self.extension == old(self).extension,
                self.current_player_id == old(self).current_player_id,
            decreases segment.tokens@.len(),
        {
            let ghost before = self.players@;
            let ghost rest_before = segment.tokens@;
            let t = segment.tokens.pop().unwrap();
            proof {
                assert(segment.tokens@ == rest_before.drop_last());
                assert(t == rest_before.last());
                assert(tokens_returnable(rest_before[rest_before.len() - 1], start.len() as int));
                assert forall|k: int| 0 <= k < segment.tokens@.len() implies tokens_returnable(
                    #[trigger] segment.tokens@[k],
                    start.len() as int,
                ) by {
                    assert(segment.tokens@[k] == rest_before[k]);
                }
                assert(before[t.player_id as int].token_count(t.token) + tokens_of(
                    rest_before,
                    t.player_id as int,
                    t.token,
                ) <= u32::MAX);
                assert forall|p: int, b: BelongingToken|
                    0 <= p < before.len() implies #[trigger] before[p].belonging_count(b) + markers_of(
                        t.belonging@,
                        p,
                        b,
                    ) <= u32::MAX by {
                    assert(before[p].belonging_count(b) + riders_of(rest_before, p, b) <= u32::MAX);
                }
            }
            self.takeback_token(t);
        }
    }

    /// Index of the tile at `p`.
    pub(crate) fn find_tile(&self, p: Pos) -> (r: Option<usize>)
        ensures
            match r {
                Some(i) => i < self.tiles@.len() && self.tiles@[i as int].pos == p,
                None => !self.has_tile(p),
            },
    {
        let mut i: usize = 0;
        while i < self.tiles.len()
            invariant
                i <= self.tiles@.len(),
                forall|k: int| 0 <= k < i ==> (#[trigger] self.tiles@[k]).pos != p,
            decreases self.tiles@.len() - i,
        {
            if self.tiles[i].pos == p {
                return Some(i);
            }
            i = i + 1;
        }
        None
    }

    pub fn have_tile(&self, pos: Pos) -> (r: bool)
        ensures
            r == self.has_tile(pos),
    {
        self.find_tile(pos).is_some()
    }
}

/// How many of the auxiliary markers `bs` are of kind `b` and belong to
/// player `p`.
pub open spec fn markers_of(bs: Seq<PlacedBelongingToken>, p: int, b: BelongingToken) -> nat
    decreases bs.len(),
{
    if bs.len() == 0 {
        0
    } else {
        markers_of(bs.drop_last(), p, b) + if bs.last().player_id == p && bs.last().token == b {
            1nat
        } else {
            0nat
        }
    }
}

/// How many of the tokens `ts` are of kind `t` and belong to player `p`.
pub open spec fn tokens_of(ts: Seq<PlacedToken>, p: int, t: Token) -> nat
    decreases ts.len(),
{
    if ts.len() == 0 {
        0
    } else {
        tokens_of(ts.drop_last(), p, t) + if ts.last().player_id == p && ts.last().token == t {
            1nat
        } else {
            0nat
        }
    }
}

/// How many auxiliary markers of kind `b` belonging to player `p` ride on
/// the tokens `ts`.
pub open spec fn riders_of(ts: Seq<PlacedToken>, p: int, b: BelongingToken) -> nat
    decreases ts.len(),
{
    if ts.len() == 0 {
        0
    } else {
        riders_of(ts.drop_last(), p, b) + markers_of(ts.last().belonging@, p, b)
    }
}

/// Token `t` and everything riding on it belong to one of `n` players.
pub open spec fn tokens_returnable(t: PlacedToken, n: int) -> bool {
    &&& t.player_id < n
    &&& (forall|k: int| 0 <= k < t.belonging@.len() ==> (#[trigger] t.belonging@[k]).player_id < n)
}

} // verus!
