//! Regions: the maximal sets of connected features of one kind, found by a
//! breadth-first walk across tile edges.
use vstd::prelude::*;
use vstd::set_lib::set_int_range;
use core::ops::Neg;
use crate::board::{Board, SegRef};
use crate::geometry::{lemma_dir8_neg_involutive, lemma_step_back, Dir8, Pos};
use crate::object::{CanScore, Object};
use crate::tile::{holds_point, points_apart};

verus! {

broadcast use vstd::seq_lib::lemma_seq_contains_after_push;

/// The point across the shared edge from perimeter point `e`: on the
/// neighbouring position, the opposite edge, the other half.
pub open spec fn arrival(e: (Pos, Dir8)) -> (Pos, Dir8) {
    (e.0.step(e.1.dir), e.1.spec_neg())
}

impl Board {
    /// Perimeter point `j` of feature `r`, with the position of its tile.
    pub open spec fn exit_of(self, r: SegRef, j: int) -> (Pos, Dir8) {
        (self.pos_of(r), self.seg_at(r).direction@[j])
    }

    /// Features `a` and `b` are of one kind and meet across a shared edge:
    /// `b` lies across point `d` of `a` and holds the point facing `d`.
    pub open spec fn linked(self, a: SegRef, b: SegRef) -> bool {
        &&& self.valid_ref(a)
        &&& self.valid_ref(b)
        &&& self.seg_at(a).typ.kind() == self.seg_at(b).typ.kind()
        &&& (exists|d: Dir8|
            #[trigger] self.seg_at(a).direction@.contains(d) && self.pos_of(b) == self.pos_of(a).step(
                d.dir,
            ) && self.seg_at(b).direction@.contains(d.spec_neg()))
    }

    /// `w` is a walk from feature to linked feature.
    pub open spec fn is_walk(self, w: Seq<SegRef>) -> bool {
        &&& w.len() > 0
        &&& self.valid_ref(w[0])
        &&& (forall|i: int| 0 <= i < w.len() - 1 ==> self.linked(#[trigger] w[i], w[i + 1]))
    }

    /// Some walk leads from `a` to `b`.
    pub open spec fn connected(self, a: SegRef, b: SegRef) -> bool {
        exists|w: Seq<SegRef>| #[trigger] self.is_walk(w) && w[0] == a && w.last() == b
    }

    /// The features of the region that `seed` belongs to.
    pub open spec fn region_members(self, seed: SegRef) -> Set<SegRef> {
        Set::new(|r: SegRef| self.connected(seed, r))
    }

    /// The perimeter points of the region of `seed` that face a position
    /// holding no tile.
    pub open spec fn region_opened(self, seed: SegRef) -> Set<(Pos, Dir8)> {
        Set::new(
            |x: (Pos, Dir8)|
                exists|m: SegRef|
                    #[trigger] self.connected(seed, m) && self.pos_of(m) == x.0 && self.seg_at(
                        m,
                    ).direction@.contains(x.1) && !self.has_tile(x.0.step(x.1.dir)),
        )
    }

    /// The region of `seed` can be scored: it is not made of fields, and no
    /// perimeter point of it faces an empty position.
    pub open spec fn region_complete(self, seed: SegRef) -> bool {
        !self.seg_at(seed).typ.spec_is_field() && self.region_opened(seed) == Set::<(Pos, Dir8)>::empty()
    }

    /// The features of tiles with index below `n`.
    pub open spec fn refs_below(self, n: int) -> Set<SegRef> {
        Set::new(|r: SegRef| r.0 < n && self.valid_ref(r))
    }

    /// Whether the walk out of perimeter point `e` has been followed: a
    /// feature of kind `kind` met across it is among `members`, and the point
    /// is listed in `opened` if no tile lies across it.
    spec fn settled(
        self,
        e: (Pos, Dir8),
        members: Seq<SegRef>,
        opened: Seq<(Pos, Dir8)>,
        kind: int,
    ) -> bool {
        &&& (self.has_tile(e.0.step(e.1.dir)) ==> forall|b: SegRef|
            self.valid_ref(b) && self.pos_of(b) == e.0.step(e.1.dir) && holds_point(
                #[trigger] self.seg_at(b),
                e.1.spec_neg(),
                kind,
            ) ==> members.contains(b))
        &&& (!self.has_tile(e.0.step(e.1.dir)) ==> opened.contains(e))
    }

    /// Appends the perimeter points of feature `r` to `queue`, and the points
    /// across from them to `occupied`.
    fn push_exits(
        &self,
        r: SegRef,
        queue: &mut Vec<(Pos, Dir8)>,
        occupied: &mut Vec<(Pos, Dir8)>,
    )
        requires
            self.valid_ref(r),
            self.pos_of(r).inner(),
        ensures
            final(queue)@.len() == old(queue)@.len() + self.seg_at(r).direction@.len(),
            final(occupied)@.len() == old(occupied)@.len() + self.seg_at(r).direction@.len(),
            forall|k: int| 0 <= k < old(queue)@.len() ==> final(queue)@[k] == old(queue)@[k],
            forall|k: int| 0 <= k < old(occupied)@.len() ==> final(occupied)@[k] == old(occupied)@[k],
            forall|j: int|
                0 <= j < self.seg_at(r).direction@.len() ==> final(queue)@[old(queue)@.len() + j]
                    == self.exit_of(r, j) && final(occupied)@[old(occupied)@.len() + j] == arrival(
                    self.exit_of(r, j),
                ),
    {
        let p = self.tiles[r.0].pos;
        let dirs = &self.tiles[r.0].segs[r.1].direction;
        let mut j: usize = 0;
        while j < dirs.len()
            invariant
                j <= dirs@.len(),
                p == self.pos_of(r),
                p.inner(),
                *dirs == self.seg_at(r).direction,
                queue@.len() == old(queue)@.len() + j,
                occupied@.len() == old(occupied)@.len() + j,
                forall|k: int| 0 <= k < old(queue)@.len() ==> queue@[k] == old(queue)@[k],
                forall|k: int| 0 <= k < old(occupied)@.len() ==> occupied@[k] == old(occupied)@[k],
                forall|i: int|
                    0 <= i < j ==> queue@[old(queue)@.len() + i] == self.exit_of(r, i)
                        && occupied@[old(occupied)@.len() + i] == arrival(self.exit_of(r, i)),
            decreases dirs@.len() - j,
        {
            let d = dirs[j];
            occupied.push((p + d.dir, d.neg()));
            queue.push((p, d));
            j = j + 1;
        }
    }

    /// The region of feature `seg`: every feature connected to it, the seed
    /// first, each once, and the perimeter points of the region that face an
    /// empty position.
    ///
    /// A breadth-first walk over perimeter points. Before a feature's points
    /// are queued, the points across from them are marked, so that the walk
    /// never re-enters a feature it has already taken.
    pub fn search_object(&self, seg: SegRef) -> (r: Object)
        requires
            self.wf(),
            self.valid_ref(seg),
        ensures
            r.segments@.len() > 0,
            r.segments@[0] == seg,
            r.segments@.no_duplicates(),
            forall|m: SegRef| r.segments@.contains(m) <==> self.connected(seg, m),
            r.opened_side@.no_duplicates(),
            forall|x: (Pos, Dir8)| r.opened_side@.contains(x) <==> self.region_opened(seg).contains(x),
            r.fits(self),
            r.is_complete(self) == self.region_complete(seg),
    {
        let typ = &self.tiles[seg.0].segs[seg.1].typ;
        let ghost kind = typ.kind();
        let ghost univ = self.refs_below(self.tiles@.len() as int);
        proof {
            lemma_refs_finite(*self, self.tiles@.len() as int);
            assert(self.tiles@[seg.0 as int].pos.inner());
        }
        let mut occupied: Vec<(Pos, Dir8)> = Vec::new();
        let mut queue: Vec<(Pos, Dir8)> = Vec::new();
        let mut obj = Object::create(seg);
        self.push_exits(seg, &mut queue, &mut occupied);
        let ghost mut src: Seq<(int, int)> = Seq::new(queue@.len(), |k: int| (0int, k));
        let ghost mut start: Seq<int> = seq![0int];
        proof {
            self.lemma_inv_init(seg, kind, obj.segments@, obj.opened_side@, queue@, occupied@, src, start);
        }
        let mut head: usize = 0;
        while head < queue.len()
            invariant
                self.wf(),
                self.valid_ref(seg),
                kind == self.seg_at(seg).typ.kind(),
                *typ == self.seg_at(seg).typ,
                univ == self.refs_below(self.tiles@.len() as int),
                univ.finite(),
                obj.segments@.len() > 0,
                obj.segments@[0] == seg,
                forall|i: int|
                    0 <= i < obj.segments@.len() ==> self.valid_ref(#[trigger] obj.segments@[i])
                        && self.seg_at(obj.segments@[i]).typ.kind() == kind,
                head <= queue@.len(),
                self.search_inv(
                    seg,
                    kind,
                    obj.segments@,
                    obj.opened_side@,
                    queue@,
                    occupied@,
                    src,
                    start,
                    head as int,
                ),
            decreases univ.difference(obj.segments@.to_set()).len(), queue@.len() - head,
        {
            let e = queue[head];
            proof {
                self.lemma_inv_entry(
                    seg, kind, obj.segments@, obj.opened_side@, queue@, occupied@, src, start,
                    head as int,
                );
            }
            let ghost k0 = head as int;
            let ghost m = obj.segments@[src[k0].0];
            let ghost members = obj.segments@;
            let ghost opened = obj.opened_side@;
            let ghost q = queue@;
            let ghost occ = occupied@;
            let ghost src0 = src;
            let ghost start0 = start;
            head = head + 1;
            if contains_point(&occupied, e) {
                proof {
                    self.lemma_inv_skip(seg, kind, members, opened, q, occ, src, start, k0);
                }
            } else {
                let next = e.0 + e.1.dir;
                match self.find_tile(next) {
                    Some(u) => {
                        match self.tiles[u].find_seg_index(e.1.neg(), typ) {
                            Some(s) => {
                                let b: SegRef = (u, s);
                                proof {
                                    self.lemma_inv_fresh(seg, kind, members, opened, q, occ, src, start, k0, b);
                                    univ.lemma_set_insert_diff_decreases(members.to_set(), b);
                                }
                                let _ = obj.push(self, b);
                                proof {
                                    assert(obj.segments@.to_set() == members.to_set().insert(b));
                                    assert(self.tiles@[u as int].pos.inner());
                                }
                                self.push_exits(b, &mut queue, &mut occupied);
                                proof {
                                    let n = self.seg_at(b).direction@.len() as int;
                                    let mi = members.len() as int;
                                    src = src + Seq::new(n as nat, |j: int| (mi, j));
                                    start = start.push(q.len() as int);
                                    self.lemma_inv_expand(
                                        seg, kind, members, opened, q, occ, src0, start0, k0, b,
                                        queue@, occupied@, src, start,
                                    );
                                }
                            },
                            None => {
                                proof {
                                    self.lemma_inv_wall(seg, kind, members, opened, q, occ, src, start, k0, u as int);
                                }
                            },
                        }
                    },
                    None => {
                        if !contains_point(&obj.opened_side, e) {
                            obj.opened_side.push(e);
                        }
                        proof {
                            self.lemma_inv_open(
                                seg, kind, members, opened, q, occ, src, start, k0,
                                obj.opened_side@,
                            );
                        }
                    },
                }
            }
        }
        proof {
            self.lemma_inv_done(seg, kind, obj.segments@, obj.opened_side@, queue@, occupied@, src, start);
            if obj.opened_side@.len() == 0 {
                assert forall|x: (Pos, Dir8)| !self.region_opened(seg).contains(x) by {
                    assert(!obj.opened_side@.contains(x));
                }
                assert(self.region_opened(seg) =~= Set::<(Pos, Dir8)>::empty());
            } else {
                assert(obj.opened_side@.contains(obj.opened_side@[0]));
                assert(self.region_opened(seg).contains(obj.opened_side@[0]));
            }
        }
        obj
    }

    /// The state of a region search that has taken features `members`,
    /// queued their perimeter points in `queue`, marked the points across
    /// from them in `occupied`, and followed the first `head` queued points.
    spec fn search_inv(
        self,
        seed: SegRef,
        kind: int,
        members: Seq<SegRef>,
        opened: Seq<(Pos, Dir8)>,
        queue: Seq<(Pos, Dir8)>,
        occupied: Seq<(Pos, Dir8)>,
        src: Seq<(int, int)>,
        start: Seq<int>,
        head: int,
    ) -> bool {
        &&& self.wf()
        &&& self.valid_ref(seed)
        &&& kind == self.seg_at(seed).typ.kind()
        &&& self.members_ok(seed, kind, members)
        &&& self.queue_ok(members, queue, occupied, src, start)
        &&& self.progress_ok(kind, members, opened, queue, head)
    }

    /// The features taken so far: the seed first, each once, all of the
    /// seed's kind and connected to it.
    #[verifier::opaque]
    spec fn members_ok(self, seed: SegRef, kind: int, members: Seq<SegRef>) -> bool {
        &&& members.len() > 0
        &&& members[0] == seed
        &&& members.no_duplicates()
        &&& (forall|i: int|
            0 <= i < members.len() ==> self.valid_ref(#[trigger] members[i]) && self.seg_at(
                members[i],
            ).typ.kind() == kind && self.connected(seed, members[i]))
    }

    /// Entry `k` of `queue` is point `src[k].1` of feature `src[k].0`; the
    /// points of feature `i` are queued from `start[i]` on; `occupied[k]` is
    /// the point across from `queue[k]`.
    #[verifier::opaque]
    spec fn queue_ok(
        self,
        members: Seq<SegRef>,
        queue: Seq<(Pos, Dir8)>,
        occupied: Seq<(Pos, Dir8)>,
        src: Seq<(int, int)>,
        start: Seq<int>,
    ) -> bool {
        &&& occupied.len() == queue.len()
        &&& (forall|k: int| 0 <= k < queue.len() ==> #[trigger] occupied[k] == arrival(queue[k]))
        &&& src.len() == queue.len()
        &&& (forall|k: int|
            0 <= k < queue.len() ==> 0 <= (#[trigger] src[k]).0 < members.len() && 0 <= src[k].1
                < self.seg_at(members[src[k].0]).direction@.len() && queue[k] == self.exit_of(
                members[src[k].0],
                src[k].1,
            ))
        &&& start.len() == members.len()
        &&& self.starts_ok(members, queue, start)
    }

    /// The points of feature `members[i]` are queued from `start[i]` on.
    spec fn starts_ok(self, members: Seq<SegRef>, queue: Seq<(Pos, Dir8)>, start: Seq<int>) -> bool {
        forall|i: int|
            0 <= i < members.len() ==> 0 <= #[trigger] start[i] && start[i] + self.seg_at(
                members[i],
            ).direction@.len() <= queue.len() && queue.subrange(
                start[i],
                start[i] + self.seg_at(members[i]).direction@.len(),
            ) == self.exits(members[i])
    }

    /// The perimeter points of feature `r`, with the position of its tile.
    spec fn exits(self, r: SegRef) -> Seq<(Pos, Dir8)> {
        Seq::new(self.seg_at(r).direction@.len(), |j: int| self.exit_of(r, j))
    }

    /// Where point `j` of feature `members[i]` is queued.
    proof fn lemma_starts_at(
        self,
        members: Seq<SegRef>,
        queue: Seq<(Pos, Dir8)>,
        start: Seq<int>,
        i: int,
        j: int,
    )
        requires
            self.starts_ok(members, queue, start),
            0 <= i < members.len(),
            0 <= j < self.seg_at(members[i]).direction@.len(),
        ensures
            0 <= start[i],
            start[i] + j < queue.len(),
            queue[start[i] + j] == self.exit_of(members[i], j),
    {
        let n = self.seg_at(members[i]).direction@.len() as int;
        assert(queue.subrange(start[i], start[i] + n)[j] == self.exits(members[i])[j]);
    }

    /// The first `head` queued points are followed, and `opened` lists, once
    /// each, those of them that face an empty position.
    #[verifier::opaque]
    spec fn progress_ok(
        self,
        kind: int,
        members: Seq<SegRef>,
        opened: Seq<(Pos, Dir8)>,
        queue: Seq<(Pos, Dir8)>,
        head: int,
    ) -> bool {
        &&& 0 <= head <= queue.len()
        &&& (forall|k: int| 0 <= k < head ==> self.settled(#[trigger] queue[k], members, opened, kind))
        &&& (forall|x: (Pos, Dir8)|
            opened.contains(x) <==> exists|k: int|
                0 <= k < head && #[trigger] queue[k] == x && !self.has_tile(x.0.step(x.1.dir)))
        &&& opened.no_duplicates()
    }

    /// The search starts with the seed taken and its points queued.
    proof fn lemma_inv_init(
        self,
        seed: SegRef,
        kind: int,
        members: Seq<SegRef>,
        opened: Seq<(Pos, Dir8)>,
        queue: Seq<(Pos, Dir8)>,
        occupied: Seq<(Pos, Dir8)>,
        src: Seq<(int, int)>,
        start: Seq<int>,
    )
        requires
            self.wf(),
            self.valid_ref(seed),
            kind == self.seg_at(seed).typ.kind(),
            members == seq![seed],
            opened.len() == 0,
            queue.len() == self.seg_at(seed).direction@.len(),
            occupied.len() == queue.len(),
            forall|j: int|
                0 <= j < queue.len() ==> queue[j] == self.exit_of(seed, j) && occupied[j] == arrival(
                    self.exit_of(seed, j),
                ),
            src == Seq::new(queue.len(), |k: int| (0int, k)),
            start == seq![0int],
        ensures
            self.search_inv(seed, kind, members, opened, queue, occupied, src, start, 0),
    {
        reveal(Board::members_ok);
        reveal(Board::queue_ok);
        reveal(Board::progress_ok);
        lemma_connected_refl(self, seed);
        assert(forall|x: (Pos, Dir8)| !opened.contains(x));
        assert(queue.subrange(0, queue.len() as int) =~= self.exits(seed));
    }

    /// The queued point at `head` belongs to a feature already taken.
    proof fn lemma_inv_entry(
        self,
        seed: SegRef,
        kind: int,
        members: Seq<SegRef>,
        opened: Seq<(Pos, Dir8)>,
        queue: Seq<(Pos, Dir8)>,
        occupied: Seq<(Pos, Dir8)>,
        src: Seq<(int, int)>,
        start: Seq<int>,
        head: int,
    )
        requires
            self.search_inv(seed, kind, members, opened, queue, occupied, src, start, head),
            0 <= head < queue.len(),
        ensures
            0 <= src[head].0 < members.len(),
            0 <= src[head].1 < self.seg_at(members[src[head].0]).direction@.len(),
            queue[head] == self.exit_of(members[src[head].0], src[head].1),
            self.pos_of(members[src[head].0]).inner(),
            occupied.len() == queue.len(),
    {
        self.lemma_src_at(members, queue, occupied, src, start, head);
        self.lemma_member_facts(seed, kind, members, src[head].0);
        assert(self.tiles@[members[src[head].0].0 as int].pos.inner());
    }

    /// A marked point is passed over.
    proof fn lemma_inv_skip(
        self,
        seed: SegRef,
        kind: int,
        members: Seq<SegRef>,
        opened: Seq<(Pos, Dir8)>,
        queue: Seq<(Pos, Dir8)>,
        occupied: Seq<(Pos, Dir8)>,
        src: Seq<(int, int)>,
        start: Seq<int>,
        k0: int,
    )
        requires
            self.search_inv(seed, kind, members, opened, queue, occupied, src, start, k0),
            0 <= k0 < queue.len(),
            occupied.contains(queue[k0]),
        ensures
            self.search_inv(seed, kind, members, opened, queue, occupied, src, start, k0 + 1),
    {
        let e = queue[k0];
        assert(self.settled(e, members, opened, kind) && self.has_tile(e.0.step(e.1.dir))) by {
            reveal(Board::members_ok);
            reveal(Board::queue_ok);
            self.lemma_marked_settled(kind, e, members, opened, queue, occupied, src);
        }
        self.lemma_progress_step(kind, members, opened, queue, k0);
    }

    /// Following a point that faces a tile, once it is settled, changes
    /// nothing else.
    proof fn lemma_progress_step(
        self,
        kind: int,
        members: Seq<SegRef>,
        opened: Seq<(Pos, Dir8)>,
        queue: Seq<(Pos, Dir8)>,
        k0: int,
    )
        requires
            self.progress_ok(kind, members, opened, queue, k0),
            0 <= k0 < queue.len(),
            self.settled(queue[k0], members, opened, kind),
            self.has_tile(queue[k0].0.step(queue[k0].1.dir)),
        ensures
            self.progress_ok(kind, members, opened, queue, k0 + 1),
    {
        reveal(Board::progress_ok);
        assert forall|x: (Pos, Dir8)|
            opened.contains(x) <==> exists|k: int|
                0 <= k < k0 + 1 && #[trigger] queue[k] == x && !self.has_tile(x.0.step(x.1.dir)) by {
            if opened.contains(x) {
                let k = choose|k: int| 0 <= k < k0 && #[trigger] queue[k] == x && !self.has_tile(x.0.step(x.1.dir));
                assert(queue[k] == x);
            }
        }
    }

    /// A point facing a tile without a feature of the kind across it adds
    /// nothing.
    proof fn lemma_inv_wall(
        self,
        seed: SegRef,
        kind: int,
        members: Seq<SegRef>,
        opened: Seq<(Pos, Dir8)>,
        queue: Seq<(Pos, Dir8)>,
        occupied: Seq<(Pos, Dir8)>,
        src: Seq<(int, int)>,
        start: Seq<int>,
        k0: int,
        u: int,
    )
        requires
            self.search_inv(seed, kind, members, opened, queue, occupied, src, start, k0),
            0 <= k0 < queue.len(),
            0 <= u < self.tiles@.len(),
            self.tiles@[u].pos == queue[k0].0.step(queue[k0].1.dir),
            forall|j: int|
                0 <= j < self.tiles@[u].segs@.len() ==> !holds_point(
                    #[trigger] self.tiles@[u].segs@[j],
                    queue[k0].1.spec_neg(),
                    kind,
                ),
        ensures
            self.search_inv(seed, kind, members, opened, queue, occupied, src, start, k0 + 1),
    {
        let e = queue[k0];
        assert(self.has_tile(e.0.step(e.1.dir)));
        assert forall|c: SegRef|
            self.valid_ref(c) && self.pos_of(c) == e.0.step(e.1.dir) && holds_point(
                #[trigger] self.seg_at(c),
                e.1.spec_neg(),
                kind,
            ) implies members.contains(c) by {
            assert(self.tiles@[c.0 as int].pos == self.tiles@[u].pos);
            assert(c.0 == u);
            assert(self.seg_at(c) == self.tiles@[u].segs@[c.1 as int]);
        }
        assert(self.settled(e, members, opened, kind));
        self.lemma_progress_step(kind, members, opened, queue, k0);
    }

    /// A point facing an empty position is listed as open, once.
    proof fn lemma_inv_open(
        self,
        seed: SegRef,
        kind: int,
        members: Seq<SegRef>,
        opened: Seq<(Pos, Dir8)>,
        queue: Seq<(Pos, Dir8)>,
        occupied: Seq<(Pos, Dir8)>,
        src: Seq<(int, int)>,
        start: Seq<int>,
        k0: int,
        opened2: Seq<(Pos, Dir8)>,
    )
        requires
            self.search_inv(seed, kind, members, opened, queue, occupied, src, start, k0),
            0 <= k0 < queue.len(),
            !self.has_tile(queue[k0].0.step(queue[k0].1.dir)),
            (opened.contains(queue[k0]) && opened2 == opened) || (!opened.contains(queue[k0])
                && opened2 == opened.push(queue[k0])),
        ensures
            self.search_inv(seed, kind, members, opened2, queue, occupied, src, start, k0 + 1),
    {
        reveal(Board::progress_ok);
        let e = queue[k0];
        assert forall|x: (Pos, Dir8)| opened.contains(x) implies opened2.contains(x) by {}
        assert forall|k: int| 0 <= k < k0 + 1 implies self.settled(#[trigger] queue[k], members, opened2, kind) by {
            if k < k0 {
                assert(self.settled(queue[k], members, opened, kind));
            }
            assert(opened2.contains(e));
        }
        assert forall|x: (Pos, Dir8)|
            opened2.contains(x) <==> exists|k: int|
                0 <= k < k0 + 1 && #[trigger] queue[k] == x && !self.has_tile(x.0.step(x.1.dir)) by {
            if x == e {
                assert(queue[k0] == x);
            }
            if opened.contains(x) {
                let k = choose|k: int| 0 <= k < k0 && #[trigger] queue[k] == x && !self.has_tile(x.0.step(x.1.dir));
                assert(queue[k] == x);
            }
            if exists|k: int| 0 <= k < k0 + 1 && #[trigger] queue[k] == x && !self.has_tile(x.0.step(x.1.dir)) {
                let k = choose|k: int| 0 <= k < k0 + 1 && #[trigger] queue[k] == x && !self.has_tile(x.0.step(x.1.dir));
                if k < k0 {
                    assert(opened.contains(x));
                }
            }
        }
        if !opened.contains(e) {
            assert(opened2.no_duplicates()) by {
                assert forall|i: int, j: int| 0 <= i < j < opened2.len() implies opened2[i] != opened2[j] by {
                    if j == opened.len() {
                        assert(opened[i] == opened2[i]);
                        assert(opened.contains(opened[i]));
                    } else {
                        assert(opened[i] == opened2[i] && opened[j] == opened2[j]);
                    }
                }
            }
        }
    }

    /// The feature met across an unmarked point is new to the region.
    proof fn lemma_inv_fresh(
        self,
        seed: SegRef,
        kind: int,
        members: Seq<SegRef>,
        opened: Seq<(Pos, Dir8)>,
        queue: Seq<(Pos, Dir8)>,
        occupied: Seq<(Pos, Dir8)>,
        src: Seq<(int, int)>,
        start: Seq<int>,
        k0: int,
        b: SegRef,
    )
        requires
            self.search_inv(seed, kind, members, opened, queue, occupied, src, start, k0),
            0 <= k0 < queue.len(),
            !occupied.contains(queue[k0]),
            self.valid_ref(b),
            self.pos_of(b) == queue[k0].0.step(queue[k0].1.dir),
            holds_point(self.seg_at(b), queue[k0].1.spec_neg(), kind),
        ensures
            !members.contains(b),
            !members.to_set().contains(b),
            self.refs_below(self.tiles@.len() as int).contains(b),
            self.seg_at(b).typ.kind() == kind,
            self.linked(members[src[k0].0], b),
            self.connected(seed, b),
            forall|c: SegRef|
                self.valid_ref(c) && self.pos_of(c) == queue[k0].0.step(queue[k0].1.dir) && holds_point(
                    #[trigger] self.seg_at(c),
                    queue[k0].1.spec_neg(),
                    kind,
                ) ==> c == b,
    {
        self.lemma_inv_entry(seed, kind, members, opened, queue, occupied, src, start, k0);
        let m = members[src[k0].0];
        self.lemma_member_facts(seed, kind, members, src[k0].0);
        self.lemma_queue_facts(members, queue, occupied, src, start);
        self.lemma_expand(seed, kind, queue[k0], m, src[k0].1, b, members, queue, occupied, start);
        assert(!members.to_set().contains(b));
    }

    /// What the search knows of feature `members[i]`.
    proof fn lemma_member_facts(self, seed: SegRef, kind: int, members: Seq<SegRef>, i: int)
        requires
            self.members_ok(seed, kind, members),
            0 <= i < members.len(),
        ensures
            self.valid_ref(members[i]),
            self.seg_at(members[i]).typ.kind() == kind,
            self.connected(seed, members[i]),
    {
        reveal(Board::members_ok);
    }

    /// What the bookkeeping says of queued point `k`.
    proof fn lemma_src_at(
        self,
        members: Seq<SegRef>,
        queue: Seq<(Pos, Dir8)>,
        occupied: Seq<(Pos, Dir8)>,
        src: Seq<(int, int)>,
        start: Seq<int>,
        k: int,
    )
        requires
            self.queue_ok(members, queue, occupied, src, start),
            0 <= k < queue.len(),
        ensures
            0 <= src[k].0 < members.len(),
            0 <= src[k].1 < self.seg_at(members[src[k].0]).direction@.len(),
            queue[k] == self.exit_of(members[src[k].0], src[k].1),
            occupied[k] == arrival(queue[k]),
            occupied.len() == queue.len(),
    {
        reveal(Board::queue_ok);
        let sk = src[k];
        assert(0 <= sk.0 < members.len());
    }

    /// The marks and the queue positions of the taken features.
    proof fn lemma_queue_facts(
        self,
        members: Seq<SegRef>,
        queue: Seq<(Pos, Dir8)>,
        occupied: Seq<(Pos, Dir8)>,
        src: Seq<(int, int)>,
        start: Seq<int>,
    )
        requires
            self.queue_ok(members, queue, occupied, src, start),
        ensures
            occupied.len() == queue.len(),
            forall|k: int| 0 <= k < queue.len() ==> #[trigger] occupied[k] == arrival(queue[k]),
            start.len() == members.len(),
            self.starts_ok(members, queue, start),
    {
        reveal(Board::queue_ok);
    }

    /// Taking the feature met across an unmarked point, and queueing its
    /// points, keeps the search state.
    proof fn lemma_inv_expand(
        self,
        seed: SegRef,
        kind: int,
        members: Seq<SegRef>,
        opened: Seq<(Pos, Dir8)>,
        queue: Seq<(Pos, Dir8)>,
        occupied: Seq<(Pos, Dir8)>,
        src: Seq<(int, int)>,
        start: Seq<int>,
        k0: int,
        b: SegRef,
        queue2: Seq<(Pos, Dir8)>,
        occupied2: Seq<(Pos, Dir8)>,
        src2: Seq<(int, int)>,
        start2: Seq<int>,
    )
        requires
            self.search_inv(seed, kind, members, opened, queue, occupied, src, start, k0),
            0 <= k0 < queue.len(),
            !occupied.contains(queue[k0]),
            self.valid_ref(b),
            self.pos_of(b) == queue[k0].0.step(queue[k0].1.dir),
            holds_point(self.seg_at(b), queue[k0].1.spec_neg(), kind),
            queue2.len() == queue.len() + self.seg_at(b).direction@.len(),
            occupied2.len() == occupied.len() + self.seg_at(b).direction@.len(),
            forall|k: int| 0 <= k < queue.len() ==> queue2[k] == queue[k],
            forall|k: int| 0 <= k < occupied.len() ==> occupied2[k] == occupied[k],
            forall|j: int|
                0 <= j < self.seg_at(b).direction@.len() ==> queue2[queue.len() + j] == self.exit_of(
                    b,
                    j,
                ) && occupied2[occupied.len() + j] == arrival(self.exit_of(b, j)),
            src2 == src + Seq::new(
                self.seg_at(b).direction@.len(),
                |j: int| (members.len() as int, j),
            ),
            start2 == start.push(queue.len() as int),
        ensures
            self.search_inv(
                seed,
                kind,
                members.push(b),
                opened,
                queue2,
                occupied2,
                src2,
                start2,
                k0 + 1,
            ),
    {
        self.lemma_inv_fresh(seed, kind, members, opened, queue, occupied, src, start, k0, b);
        self.lemma_members_grow(seed, kind, members, b);
        self.lemma_queue_grow(members, queue, occupied, src, start, b, queue2, occupied2, src2, start2);
        self.lemma_progress_grow(kind, members, opened, queue, k0, b, queue2);
    }

    /// Adding a new connected feature of the kind keeps the taken list.
    proof fn lemma_members_grow(self, seed: SegRef, kind: int, members: Seq<SegRef>, b: SegRef)
        requires
            self.members_ok(seed, kind, members),
            !members.contains(b),
            self.valid_ref(b),
            self.seg_at(b).typ.kind() == kind,
            self.connected(seed, b),
        ensures
            self.members_ok(seed, kind, members.push(b)),
    {
        reveal(Board::members_ok);
        let members2 = members.push(b);
        assert forall|i: int| 0 <= i < members2.len() implies self.valid_ref(#[trigger] members2[i])
            && self.seg_at(members2[i]).typ.kind() == kind && self.connected(seed, members2[i]) by {
            if i < members.len() {
                assert(members2[i] == members[i]);
            }
        }
        assert(members2.no_duplicates()) by {
            assert forall|i: int, j: int| 0 <= i < j < members2.len() implies members2[i] != members2[j] by {
                if j == members.len() {
                    assert(members2[i] == members[i]);
                    assert(members.contains(members[i]));
                } else {
                    assert(members2[i] == members[i] && members2[j] == members[j]);
                }
            }
        }
    }

    /// Queueing the points of a newly taken feature keeps the bookkeeping.
    proof fn lemma_queue_grow(
        self,
        members: Seq<SegRef>,
        queue: Seq<(Pos, Dir8)>,
        occupied: Seq<(Pos, Dir8)>,
        src: Seq<(int, int)>,
        start: Seq<int>,
        b: SegRef,
        queue2: Seq<(Pos, Dir8)>,
        occupied2: Seq<(Pos, Dir8)>,
        src2: Seq<(int, int)>,
        start2: Seq<int>,
    )
        requires
            self.queue_ok(members, queue, occupied, src, start),
            queue2.len() == queue.len() + self.seg_at(b).direction@.len(),
            occupied2.len() == occupied.len() + self.seg_at(b).direction@.len(),
            forall|k: int| 0 <= k < queue.len() ==> queue2[k] == queue[k],
            forall|k: int| 0 <= k < occupied.len() ==> occupied2[k] == occupied[k],
            forall|j: int|
                0 <= j < self.seg_at(b).direction@.len() ==> queue2[queue.len() + j] == self.exit_of(
                    b,
                    j,
                ) && occupied2[occupied.len() + j] == arrival(self.exit_of(b, j)),
            src2 == src + Seq::new(
                self.seg_at(b).direction@.len(),
                |j: int| (members.len() as int, j),
            ),
            start2 == start.push(queue.len() as int),
        ensures
            self.queue_ok(members.push(b), queue2, occupied2, src2, start2),
    {
        reveal(Board::queue_ok);
        let members2 = members.push(b);
        let old_len = queue.len() as int;
        let n = self.seg_at(b).direction@.len() as int;
        assert forall|k: int| 0 <= k < queue2.len() implies #[trigger] occupied2[k] == arrival(queue2[k]) by {
            if k >= old_len {
                assert(queue2[old_len + (k - old_len)] == self.exit_of(b, k - old_len));
            }
        }
        assert forall|k: int|
            0 <= k < queue2.len() implies 0 <= (#[trigger] src2[k]).0 < members2.len() && 0 <= src2[k].1
                < self.seg_at(members2[src2[k].0]).direction@.len() && queue2[k] == self.exit_of(
                members2[src2[k].0],
                src2[k].1,
            ) by {
            if k < old_len {
                assert(src2[k] == src[k]);
                let _ = src[k];
                assert(members2[src[k].0] == members[src[k].0]);
            } else {
                assert(src2[k] == (members.len() as int, k - old_len));
                assert(queue2[old_len + (k - old_len)] == self.exit_of(b, k - old_len));
            }
        }
        assert forall|i: int| 0 <= i < members2.len() implies 0 <= #[trigger] start2[i] && start2[i]
            + self.seg_at(members2[i]).direction@.len() <= queue2.len() && queue2.subrange(
            start2[i],
            start2[i] + self.seg_at(members2[i]).direction@.len(),
        ) == self.exits(members2[i]) by {
            if i < members.len() {
                assert(members2[i] == members[i]);
                assert(start2[i] == start[i]);
                let n = self.seg_at(members[i]).direction@.len() as int;
                assert(queue.subrange(start[i], start[i] + n) == self.exits(members[i]));
                assert(queue2.subrange(start[i], start[i] + n) =~= queue.subrange(start[i], start[i] + n));
            } else {
                assert(start2[i] == old_len);
                assert(members2[i] == b);
                assert(queue2.subrange(old_len, old_len + n) =~= self.exits(b));
            }
        }
        assert(self.starts_ok(members2, queue2, start2));
    }

    /// Following the point that led to a newly taken feature settles it.
    proof fn lemma_progress_grow(
        self,
        kind: int,
        members: Seq<SegRef>,
        opened: Seq<(Pos, Dir8)>,
        queue: Seq<(Pos, Dir8)>,
        k0: int,
        b: SegRef,
        queue2: Seq<(Pos, Dir8)>,
    )
        requires
            self.progress_ok(kind, members, opened, queue, k0),
            0 <= k0 < queue.len(),
            self.valid_ref(b),
            self.pos_of(b) == queue[k0].0.step(queue[k0].1.dir),
            forall|c: SegRef|
                self.valid_ref(c) && self.pos_of(c) == queue[k0].0.step(queue[k0].1.dir) && holds_point(
                    #[trigger] self.seg_at(c),
                    queue[k0].1.spec_neg(),
                    kind,
                ) ==> c == b,
            queue2.len() >= queue.len(),
            forall|k: int| 0 <= k < queue.len() ==> queue2[k] == queue[k],
        ensures
            self.progress_ok(kind, members.push(b), opened, queue2, k0 + 1),
    {
        reveal(Board::progress_ok);
        let members2 = members.push(b);
        let e = queue[k0];
        assert(self.tiles@[b.0 as int].pos == self.pos_of(b));
        assert(self.has_tile(e.0.step(e.1.dir)));
        assert forall|k: int| 0 <= k < k0 + 1 implies self.settled(#[trigger] queue2[k], members2, opened, kind) by {
            assert(queue2[k] == queue[k]);
            if k < k0 {
                assert(self.settled(queue[k], members, opened, kind));
            }
        }
        assert forall|x: (Pos, Dir8)|
            opened.contains(x) <==> exists|k: int|
                0 <= k < k0 + 1 && #[trigger] queue2[k] == x && !self.has_tile(x.0.step(x.1.dir)) by {
            if opened.contains(x) {
                let k = choose|k: int| 0 <= k < k0 && #[trigger] queue[k] == x && !self.has_tile(x.0.step(x.1.dir));
                assert(queue2[k] == x);
            }
            if exists|k: int| 0 <= k < k0 + 1 && #[trigger] queue2[k] == x && !self.has_tile(x.0.step(x.1.dir)) {
                let k = choose|k: int| 0 <= k < k0 + 1 && #[trigger] queue2[k] == x && !self.has_tile(x.0.step(x.1.dir));
                assert(queue[k] == x);
            }
        }
    }

    /// An exhausted queue leaves exactly the region and its open points.
    proof fn lemma_inv_done(
        self,
        seed: SegRef,
        kind: int,
        members: Seq<SegRef>,
        opened: Seq<(Pos, Dir8)>,
        queue: Seq<(Pos, Dir8)>,
        occupied: Seq<(Pos, Dir8)>,
        src: Seq<(int, int)>,
        start: Seq<int>,
    )
        requires
            self.search_inv(seed, kind, members, opened, queue, occupied, src, start, queue.len() as int),
        ensures
            members.no_duplicates(),
            opened.no_duplicates(),
            forall|x: SegRef| members.contains(x) <==> self.connected(seed, x),
            forall|x: (Pos, Dir8)| opened.contains(x) <==> self.region_opened(seed).contains(x),
    {
        reveal(Board::members_ok);
        reveal(Board::queue_ok);
        reveal(Board::progress_ok);
        self.lemma_search_done(seed, kind, members, opened, queue, src, start);
    }

    /// Two features of one kind on the board that hold one point on one
    /// position are the same feature.
    proof fn lemma_holder_unique(self, a: SegRef, b: SegRef, d: Dir8, kind: int)
        requires
            self.wf(),
            self.valid_ref(a),
            self.valid_ref(b),
            self.pos_of(a) == self.pos_of(b),
            holds_point(self.seg_at(a), d, kind),
            holds_point(self.seg_at(b), d, kind),
        ensures
            a == b,
    {
        assert(self.tiles@[a.0 as int].pos == self.tiles@[b.0 as int].pos);
        assert(a.0 == b.0);
        let t = self.tiles@[a.0 as int];
        assert(t.wf());
        if a.1 != b.1 {
            assert(t.segs@[a.1 as int].typ.kind() == t.segs@[b.1 as int].typ.kind());
            assert(points_apart(t.segs@[a.1 as int].direction@, t.segs@[b.1 as int].direction@));
        }
    }

    /// A marked point leads back into a feature already taken.
    proof fn lemma_marked_settled(
        self,
        kind: int,
        e: (Pos, Dir8),
        members: Seq<SegRef>,
        opened: Seq<(Pos, Dir8)>,
        queue: Seq<(Pos, Dir8)>,
        occupied: Seq<(Pos, Dir8)>,
        src: Seq<(int, int)>,
    )
        requires
            self.wf(),
            occupied.contains(e),
            occupied.len() == queue.len(),
            forall|k: int| 0 <= k < queue.len() ==> #[trigger] occupied[k] == arrival(queue[k]),
            src.len() == queue.len(),
            forall|k: int|
                0 <= k < queue.len() ==> 0 <= (#[trigger] src[k]).0 < members.len() && 0 <= src[k].1
                    < self.seg_at(members[src[k].0]).direction@.len() && queue[k] == self.exit_of(
                    members[src[k].0],
                    src[k].1,
                ),
            forall|i: int|
                0 <= i < members.len() ==> self.valid_ref(#[trigger] members[i]) && self.seg_at(
                    members[i],
                ).typ.kind() == kind,
        ensures
            self.settled(e, members, opened, kind),
            self.has_tile(e.0.step(e.1.dir)),
    {
        let kk = choose|kk: int| 0 <= kk < occupied.len() && occupied[kk] == e;
        assert(occupied[kk] == arrival(queue[kk]));
        let _ = src[kk];
        let m = members[src[kk].0];
        let d = self.seg_at(m).direction@[src[kk].1];
        assert(self.tiles@[m.0 as int].pos.inner());
        lemma_step_back(self.pos_of(m), d.dir);
        lemma_dir8_neg_involutive(d);
        assert(e.0.step(e.1.dir) == self.pos_of(m));
        assert(self.tiles@[m.0 as int].pos == self.pos_of(m));
        assert(self.has_tile(e.0.step(e.1.dir)));
        assert(self.seg_at(m).direction@.contains(d));
        assert forall|b: SegRef|
            self.valid_ref(b) && self.pos_of(b) == e.0.step(e.1.dir) && holds_point(
                #[trigger] self.seg_at(b),
                e.1.spec_neg(),
                kind,
            ) implies members.contains(b) by {
            self.lemma_holder_unique(m, b, d, kind);
            assert(members[src[kk].0] == m);
        }
    }

    /// The feature met across an unmarked point is new to the region,
    /// linked to the feature the point belongs to, and the only one of its
    /// kind there.
    proof fn lemma_expand(
        self,
        seed: SegRef,
        kind: int,
        e: (Pos, Dir8),
        m: SegRef,
        j0: int,
        b: SegRef,
        members: Seq<SegRef>,
        queue: Seq<(Pos, Dir8)>,
        occupied: Seq<(Pos, Dir8)>,
        start: Seq<int>,
    )
        requires
            self.wf(),
            self.valid_ref(m),
            self.seg_at(m).typ.kind() == kind,
            self.connected(seed, m),
            0 <= j0 < self.seg_at(m).direction@.len(),
            e == self.exit_of(m, j0),
            self.valid_ref(b),
            self.pos_of(b) == e.0.step(e.1.dir),
            holds_point(self.seg_at(b), e.1.spec_neg(), kind),
            !occupied.contains(e),
            occupied.len() == queue.len(),
            forall|k: int| 0 <= k < queue.len() ==> #[trigger] occupied[k] == arrival(queue[k]),
            start.len() == members.len(),
            self.starts_ok(members, queue, start),
        ensures
            !members.contains(b),
            self.linked(m, b),
            self.connected(seed, b),
            forall|c: SegRef|
                self.valid_ref(c) && self.pos_of(c) == e.0.step(e.1.dir) && holds_point(
                    #[trigger] self.seg_at(c),
                    e.1.spec_neg(),
                    kind,
                ) ==> c == b,
    {
        assert(self.tiles@[m.0 as int].pos.inner());
        lemma_step_back(e.0, e.1.dir);
        lemma_dir8_neg_involutive(e.1);
        if members.contains(b) {
            let i = choose|i: int| 0 <= i < members.len() && members[i] == b;
            let jj = choose|jj: int|
                0 <= jj < self.seg_at(b).direction@.len() && self.seg_at(b).direction@[jj]
                    == e.1.spec_neg();
            self.lemma_starts_at(members, queue, start, i, jj);
            let kk = start[i] + jj;
            assert(queue[kk] == self.exit_of(members[i], jj));
            assert(occupied[kk] == e);
            assert(occupied.contains(e));
        }
        assert(self.seg_at(m).direction@.contains(e.1));
        assert(self.linked(m, b));
        lemma_connected_extend(self, seed, m, b);
        assert forall|c: SegRef|
            self.valid_ref(c) && self.pos_of(c) == e.0.step(e.1.dir) && holds_point(
                #[trigger] self.seg_at(c),
                e.1.spec_neg(),
                kind,
            ) implies c == b by {
            self.lemma_holder_unique(b, c, e.1.spec_neg(), kind);
        }
    }

    /// Once every queued point is settled, the features taken are exactly the
    /// region and the open points exactly its open perimeter.
    proof fn lemma_search_done(
        self,
        seed: SegRef,
        kind: int,
        members: Seq<SegRef>,
        opened: Seq<(Pos, Dir8)>,
        queue: Seq<(Pos, Dir8)>,
        src: Seq<(int, int)>,
        start: Seq<int>,
    )
        requires
            self.wf(),
            self.valid_ref(seed),
            kind == self.seg_at(seed).typ.kind(),
            members.len() > 0,
            members[0] == seed,
            forall|i: int|
                0 <= i < members.len() ==> self.valid_ref(#[trigger] members[i]) && self.seg_at(
                    members[i],
                ).typ.kind() == kind && self.connected(seed, members[i]),
            src.len() == queue.len(),
            forall|k: int|
                0 <= k < queue.len() ==> 0 <= (#[trigger] src[k]).0 < members.len() && 0 <= src[k].1
                    < self.seg_at(members[src[k].0]).direction@.len() && queue[k] == self.exit_of(
                    members[src[k].0],
                    src[k].1,
                ),
            start.len() == members.len(),
            self.starts_ok(members, queue, start),
            forall|k: int| 0 <= k < queue.len() ==> self.settled(#[trigger] queue[k], members, opened, kind),
            forall|x: (Pos, Dir8)|
                opened.contains(x) <==> exists|k: int|
                    0 <= k < queue.len() && #[trigger] queue[k] == x && !self.has_tile(x.0.step(x.1.dir)),
        ensures
            forall|x: SegRef| members.contains(x) <==> self.connected(seed, x),
            forall|x: (Pos, Dir8)| opened.contains(x) <==> self.region_opened(seed).contains(x),
    {
        assert forall|a: SegRef, b: SegRef| members.contains(a) && #[trigger] self.linked(a, b) implies members.contains(b) by {
            let i = choose|i: int| 0 <= i < members.len() && members[i] == a;
            let d = choose|d: Dir8|
                #[trigger] self.seg_at(a).direction@.contains(d) && self.pos_of(b) == self.pos_of(a).step(
                    d.dir,
                ) && self.seg_at(b).direction@.contains(d.spec_neg());
            let j = choose|j: int| 0 <= j < self.seg_at(a).direction@.len() && self.seg_at(a).direction@[j] == d;
            self.lemma_starts_at(members, queue, start, i, j);
            let k = start[i] + j;
            assert(queue[k] == self.exit_of(members[i], j));
            assert(self.settled(queue[k], members, opened, kind));
            assert(self.tiles@[b.0 as int].pos == self.pos_of(b));
            assert(self.has_tile(queue[k].0.step(queue[k].1.dir)));
            assert(holds_point(self.seg_at(b), d.spec_neg(), kind));
        }
        assert forall|x: SegRef| members.contains(x) <==> self.connected(seed, x) by {
            if self.connected(seed, x) {
                assert(members.contains(seed)) by {
                    assert(members[0] == seed);
                }
                lemma_closed_holds_region(self, members, seed, x);
            }
            if members.contains(x) {
                let i = choose|i: int| 0 <= i < members.len() && members[i] == x;
            }
        }
        assert forall|x: (Pos, Dir8)| opened.contains(x) <==> self.region_opened(seed).contains(x) by {
            if opened.contains(x) {
                let k = choose|k: int|
                    0 <= k < queue.len() && #[trigger] queue[k] == x && !self.has_tile(x.0.step(x.1.dir));
                let _ = src[k];
                let m = members[src[k].0];
                assert(self.seg_at(m).direction@.contains(x.1));
                assert(self.connected(seed, m));
            }
            if self.region_opened(seed).contains(x) {
                let m = choose|m: SegRef|
                    #[trigger] self.connected(seed, m) && self.pos_of(m) == x.0 && self.seg_at(
                        m,
                    ).direction@.contains(x.1) && !self.has_tile(x.0.step(x.1.dir));
                assert(members.contains(m));
                let i = choose|i: int| 0 <= i < members.len() && members[i] == m;
                let j = choose|j: int| 0 <= j < self.seg_at(m).direction@.len() && self.seg_at(m).direction@[j] == x.1;
                self.lemma_starts_at(members, queue, start, i, j);
            let k = start[i] + j;
                assert(queue[k] == self.exit_of(members[i], j));
                assert(queue[k] == x);
            }
        }
    }

}

/// Whether `v` holds `e`.
fn contains_point(v: &Vec<(Pos, Dir8)>, e: (Pos, Dir8)) -> (r: bool)
    ensures
        r == v@.contains(e),
{
    let mut i: usize = 0;
    while i < v.len()
        invariant
            i <= v@.len(),
            forall|k: int| 0 <= k < i ==> v@[k] != e,
        decreases v@.len() - i,
    {
        let x = v[i];
        if x.0 == e.0 && x.1 == e.1 {
            assert(v@[i as int] == e);
            return true;
        }
        i = i + 1;
    }
    false
}

/// A single feature is connected to itself.
pub proof fn lemma_connected_refl(board: Board, a: SegRef)
    requires
        board.valid_ref(a),
    ensures
        board.connected(a, a),
{
    let w = seq![a];
    assert(board.is_walk(w));
}

/// A walk from `a` to `m` goes on to any feature linked to `m`.
pub proof fn lemma_connected_extend(board: Board, a: SegRef, m: SegRef, b: SegRef)
    requires
        board.connected(a, m),
        board.linked(m, b),
    ensures
        board.connected(a, b),
{
    let w = choose|w: Seq<SegRef>| #[trigger] board.is_walk(w) && w[0] == a && w.last() == m;
    let w2 = w.push(b);
    assert forall|i: int| 0 <= i < w2.len() - 1 implies board.linked(#[trigger] w2[i], w2[i + 1]) by {
        if i < w.len() - 1 {
            assert(w2[i] == w[i] && w2[i + 1] == w[i + 1]);
        }
    }
    assert(board.is_walk(w2));
}

/// Links run both ways.
pub proof fn lemma_linked_symmetric(board: Board, a: SegRef, b: SegRef)
    requires
        board.wf(),
        board.linked(a, b),
    ensures
        board.linked(b, a),
{
    let d = choose|d: Dir8|
        #[trigger] board.seg_at(a).direction@.contains(d) && board.pos_of(b) == board.pos_of(a).step(
            d.dir,
        ) && board.seg_at(b).direction@.contains(d.spec_neg());
    assert(board.tiles@[a.0 as int].pos.inner());
    lemma_step_back(board.pos_of(a), d.dir);
    lemma_dir8_neg_involutive(d);
    assert(board.seg_at(b).direction@.contains(d.spec_neg()));
}

/// A region holding a feature with a perimeter point that faces an empty
/// position lists that point as open, and so is not complete.
pub proof fn lemma_open_point_incomplete(board: Board, seed: SegRef, m: SegRef, d: Dir8)
    requires
        board.connected(seed, m),
        board.seg_at(m).direction@.contains(d),
        !board.has_tile(board.pos_of(m).step(d.dir)),
    ensures
        board.region_opened(seed).contains((board.pos_of(m), d)),
        !board.region_complete(seed),
{
    assert(board.region_opened(seed).contains((board.pos_of(m), d)));
}

/// `after` is `before` with one more tile appended to the table.
pub open spec fn appends_tile(before: Board, after: Board) -> bool {
    &&& after.tiles@.len() == before.tiles@.len() + 1
    &&& (forall|i: int| 0 <= i < before.tiles@.len() ==> after.tiles@[i] == #[trigger] before.tiles@[i])
}

/// A walk on a board is still a walk once another tile is laid.
proof fn lemma_walk_kept(before: Board, after: Board, w: Seq<SegRef>)
    requires
        appends_tile(before, after),
        before.is_walk(w),
    ensures
        after.is_walk(w),
{
    assert(before.tiles@[w[0].0 as int] == after.tiles@[w[0].0 as int]);
    assert forall|i: int| 0 <= i < w.len() - 1 implies after.linked(#[trigger] w[i], w[i + 1]) by {
        assert(before.linked(w[i], w[i + 1]));
        assert(before.tiles@[w[i].0 as int] == after.tiles@[w[i].0 as int]);
        assert(before.tiles@[w[i + 1].0 as int] == after.tiles@[w[i + 1].0 as int]);
        let d = choose|d: Dir8|
            #[trigger] before.seg_at(w[i]).direction@.contains(d) && before.pos_of(w[i + 1])
                == before.pos_of(w[i]).step(d.dir) && before.seg_at(w[i + 1]).direction@.contains(
                d.spec_neg(),
            );
        assert(after.seg_at(w[i]).direction@.contains(d));
    }
}

/// Laying a tile whose feature joins a region, and has a perimeter point
/// facing an empty position, leaves that region incomplete.
pub proof fn lemma_open_addition_incomplete(
    before: Board,
    after: Board,
    seed: SegRef,
    m: SegRef,
    added: SegRef,
    d: Dir8,
)
    requires
        appends_tile(before, after),
        before.connected(seed, m),
        added.0 == before.tiles@.len(),
        after.linked(m, added),
        after.seg_at(added).direction@.contains(d),
        !after.has_tile(after.pos_of(added).step(d.dir)),
    ensures
        after.connected(seed, added),
        !after.region_complete(seed),
{
    let w = choose|w: Seq<SegRef>| #[trigger] before.is_walk(w) && w[0] == seed && w.last() == m;
    lemma_walk_kept(before, after, w);
    assert(after.connected(seed, m));
    lemma_connected_extend(after, seed, m, added);
    lemma_open_point_incomplete(after, seed, added, d);
}

/// A region that is not made of fields and has no open perimeter point is
/// complete; a region of fields never is.
pub proof fn lemma_complete_iff_closed(board: Board, seed: SegRef)
    ensures
        board.seg_at(seed).typ.spec_is_field() ==> !board.region_complete(seed),
        !board.seg_at(seed).typ.spec_is_field() && board.region_opened(seed) == Set::<
            (Pos, Dir8),
        >::empty() ==> board.region_complete(seed),
{
}

/// Every feature on a walk that starts where `a` reaches is reached from `a`.
proof fn lemma_walk_reached(board: Board, a: SegRef, w: Seq<SegRef>, k: int)
    requires
        board.is_walk(w),
        board.connected(a, w[0]),
        0 <= k < w.len(),
    ensures
        board.connected(a, w[k]),
    decreases k,
{
    if k > 0 {
        lemma_walk_reached(board, a, w, k - 1);
        assert(board.linked(w[k - 1], w[k]));
        lemma_connected_extend(board, a, w[k - 1], w[k]);
    }
}

/// Connection is transitive.
pub proof fn lemma_connected_trans(board: Board, a: SegRef, b: SegRef, c: SegRef)
    requires
        board.connected(a, b),
        board.connected(b, c),
    ensures
        board.connected(a, c),
{
    let w = choose|w: Seq<SegRef>| #[trigger] board.is_walk(w) && w[0] == b && w.last() == c;
    lemma_walk_reached(board, a, w, w.len() - 1);
}

/// Every feature on a walk leads back to where the walk began.
proof fn lemma_walk_back(board: Board, w: Seq<SegRef>, k: int)
    requires
        board.wf(),
        board.is_walk(w),
        0 <= k < w.len(),
    ensures
        board.connected(w[k], w[0]),
    decreases k,
{
    if k == 0 {
        lemma_connected_refl(board, w[0]);
    } else {
        lemma_walk_back(board, w, k - 1);
        assert(board.linked(w[k - 1], w[k]));
        lemma_linked_symmetric(board, w[k - 1], w[k]);
        lemma_connected_refl(board, w[k]);
        lemma_connected_extend(board, w[k], w[k], w[k - 1]);
        lemma_connected_trans(board, w[k], w[k - 1], w[0]);
    }
}

/// Connection is symmetric.
pub proof fn lemma_connected_symmetric(board: Board, a: SegRef, b: SegRef)
    requires
        board.wf(),
        board.connected(a, b),
    ensures
        board.connected(b, a),
{
    let w = choose|w: Seq<SegRef>| #[trigger] board.is_walk(w) && w[0] == a && w.last() == b;
    lemma_walk_back(board, w, w.len() - 1);
}

/// The region found from any of its features is the same region, with the
/// same open perimeter points.
pub proof fn lemma_region_seed_invariant(board: Board, a: SegRef, b: SegRef)
    requires
        board.wf(),
        board.connected(a, b),
    ensures
        board.region_members(a) == board.region_members(b),
        board.region_opened(a) == board.region_opened(b),
{
    lemma_connected_symmetric(board, a, b);
    assert forall|x: SegRef| board.connected(a, x) <==> board.connected(b, x) by {
        if board.connected(a, x) {
            lemma_connected_trans(board, b, a, x);
        }
        if board.connected(b, x) {
            lemma_connected_trans(board, a, b, x);
        }
    }
    assert(board.region_members(a) =~= board.region_members(b));
    assert(board.region_opened(a) =~= board.region_opened(b));
}

/// A list of features that holds `seed` and every feature linked to one of
/// its own holds every feature connected to `seed`.
proof fn lemma_closed_holds_region(board: Board, members: Seq<SegRef>, seed: SegRef, x: SegRef)
    requires
        members.contains(seed),
        forall|m: SegRef, b: SegRef| members.contains(m) && #[trigger] board.linked(m, b) ==> members.contains(b),
        board.connected(seed, x),
    ensures
        members.contains(x),
{
    let w = choose|w: Seq<SegRef>| #[trigger] board.is_walk(w) && w[0] == seed && w.last() == x;
    assert forall|k: int| 0 <= k < w.len() implies members.contains(#[trigger] w[k]) by {
        lemma_walk_in_closed(board, members, w, k);
    }
}

proof fn lemma_walk_in_closed(board: Board, members: Seq<SegRef>, w: Seq<SegRef>, k: int)
    requires
        board.is_walk(w),
        members.contains(w[0]),
        forall|m: SegRef, b: SegRef| members.contains(m) && #[trigger] board.linked(m, b) ==> members.contains(b),
        0 <= k < w.len(),
    ensures
        members.contains(w[k]),
    decreases k,
{
    if k > 0 {
        lemma_walk_in_closed(board, members, w, k - 1);
        assert(board.linked(w[k - 1], w[k]));
    }
}

/// The features of a board form a finite set.
proof fn lemma_refs_finite(board: Board, n: int)
    requires
        0 <= n <= board.tiles@.len(),
    ensures
        board.refs_below(n).finite(),
    decreases n,
{
    if n == 0 {
        assert(board.refs_below(0) =~= Set::empty());
    } else {
        lemma_refs_finite(board, n - 1);
        let len = board.tiles@[n - 1].segs@.len() as int;
        let f = |s: int| ((n - 1) as usize, s as usize);
        let range = set_int_range(0, len);
        vstd::set_lib::lemma_int_range(0, len);
        range.lemma_map_finite(f);
        assert forall|r: SegRef| board.refs_below(n).contains(r) implies #[trigger] board.refs_below(
            n - 1,
        ).union(range.map(f)).contains(r) by {
            if r.0 == n - 1 {
                assert(range.contains(r.1 as int));
                assert(f(r.1 as int) == r);
            }
        }
        vstd::set_lib::lemma_set_subset_finite(
            board.refs_below(n - 1).union(range.map(f)),
            board.refs_below(n),
        );
    }
}

} // verus!
