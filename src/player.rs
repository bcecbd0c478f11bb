//! A player's pools of markers.
use vstd::prelude::*;
use crate::error::GameError;
use crate::token::{BelongingToken, PlacedBelongingToken, PlacedToken, Token};

verus! {

/// Count kept in slot `i` of a pool; a slot past the end holds nothing.
pub open spec fn slot(pool: Seq<u32>, i: int) -> nat {
    if 0 <= i < pool.len() {
        pool[i] as nat
    } else {
        0
    }
}

/// A player and the markers left in their pools, one slot per kind.
pub struct Player {
    pub id: usize,
    pub tokens: Vec<u32>,
    pub belonging_tokens: Vec<u32>,
}

/// `after` is `before` with one token of kind `t` drawn from the pool.
pub open spec fn drew_token(before: Player, after: Player, t: Token) -> bool {
    &&& after.id == before.id
    &&& after.token_count(t) + 1 == before.token_count(t)
    &&& (forall|o: Token| o != t ==> after.token_count(o) == before.token_count(o))
    &&& (forall|b: BelongingToken| after.belonging_count(b) == before.belonging_count(b))
}

/// `after` is `before` with one token of kind `t` returned to the pool.
pub open spec fn returned_token(before: Player, after: Player, t: Token) -> bool {
    &&& after.id == before.id
    &&& after.token_count(t) == before.token_count(t) + 1
    &&& (forall|o: Token| o != t ==> after.token_count(o) == before.token_count(o))
    &&& (forall|b: BelongingToken| after.belonging_count(b) == before.belonging_count(b))
}

/// `after` is `before` with one auxiliary marker of kind `b` drawn.
pub open spec fn drew_belonging(before: Player, after: Player, b: BelongingToken) -> bool {
    &&& after.id == before.id
    &&& after.belonging_count(b) + 1 == before.belonging_count(b)
    &&& (forall|o: BelongingToken| o != b ==> after.belonging_count(o) == before.belonging_count(o))
    &&& (forall|t: Token| after.token_count(t) == before.token_count(t))
}

/// `after` is `before` with one auxiliary marker of kind `b` returned.
pub open spec fn returned_belonging(before: Player, after: Player, b: BelongingToken) -> bool {
    &&& after.id == before.id
    &&& after.belonging_count(b) == before.belonging_count(b) + 1
    &&& (forall|o: BelongingToken| o != b ==> after.belonging_count(o) == before.belonging_count(o))
    &&& (forall|t: Token| after.token_count(t) == before.token_count(t))
}

/// Adds one to slot `i`, lengthening the pool with empty slots as needed.
fn pool_add_one(pool: &mut Vec<u32>, i: usize)
    requires
        slot(old(pool)@, i as int) < u32::MAX,
    ensures
        slot(final(pool)@, i as int) == slot(old(pool)@, i as int) + 1,
        forall|j: int| j != i ==> slot(final(pool)@, j) == slot(old(pool)@, j),
{
    while pool.len() <= i
        invariant
            slot(pool@, i as int) == slot(old(pool)@, i as int),
            forall|j: int| slot(pool@, j) == slot(old(pool)@, j),
        decreases i + 1 - pool@.len(),
    {
        pool.push(0);
    }
    pool.set(i, pool[i] + 1);
}

impl Player {
    /// Markers of kind `t` left in the pool.
    pub open spec fn token_count(self, t: Token) -> nat {
        slot(self.tokens@, t.spec_id())
    }

    /// Auxiliary markers of kind `b` left in the pool.
    pub open spec fn belonging_count(self, b: BelongingToken) -> nat {
        slot(self.belonging_tokens@, b.spec_id())
    }

    /// A player with empty pools.
    pub fn create(id: usize) -> (r: Player)
        ensures
            r.id == id,
            forall|t: Token| r.token_count(t) == 0,
            forall|b: BelongingToken| r.belonging_count(b) == 0,
    {
        Player { id: id, tokens: Vec::new(), belonging_tokens: Vec::new() }
    }

    pub fn have_token(&self, token: Token) -> (r: bool)
        ensures
            r == (self.token_count(token) > 0),
    {
        let i = token.id();
        i < self.tokens.len() && self.tokens[i] != 0
    }

    /// Draws one token of kind `token`; fails, changing nothing, when the pool
    /// holds none.
    pub fn place_token(&mut self, token: Token) -> (r: Result<PlacedToken, GameError>)
        ensures
            old(self).token_count(token) > 0 ==> (r matches Ok(p) && drew_token(
                *old(self),
                *final(self),
                token,
            ) && p.token == token && p.player_id == old(self).id && p.belonging@.len() == 0
                && p.public_belonging@.len() == 0),
            old(self).token_count(token) == 0 ==> r == Err::<PlacedToken, GameError>(
                GameError::TokenUnavailable,
            ) && *final(self) == *old(self),
    {
        let i = token.id();
        if i < self.tokens.len() && self.tokens[i] > 0 {
            let n = self.tokens[i];
            self.tokens.set(i, n - 1);
            return Ok(
                PlacedToken {
                    token: token,
                    belonging: Vec::new(),
                    public_belonging: Vec::new(),
                    player_id: self.id,
                },
            );
        }
        Err(GameError::TokenUnavailable)
    }

    /// Returns one token of kind `token` to the pool.
    pub fn takeback_token(&mut self, token: Token)
        requires
            old(self).token_count(token) < u32::MAX,
        ensures
            returned_token(*old(self), *final(self), token),
    {
        pool_add_one(&mut self.tokens, token.id());
    }

    pub fn have_belonging(&self, belonging_token: BelongingToken) -> (r: bool)
        ensures
            r == (self.belonging_count(belonging_token) > 0),
    {
        let i = belonging_token.id();
        i < self.belonging_tokens.len() && self.belonging_tokens[i] != 0
    }

    /// Draws one auxiliary marker of kind `belonging_token`; fails, changing
    /// nothing, when the pool holds none.
    pub fn place_belonging(&mut self, belonging_token: BelongingToken) -> (r: Result<
        PlacedBelongingToken,
        GameError,
    >)
        ensures
            old(self).belonging_count(belonging_token) > 0 ==> (r matches Ok(p) && drew_belonging(
                *old(self),
                *final(self),
                belonging_token,
            ) && p.token == belonging_token && p.player_id == old(self).id),
            old(self).belonging_count(belonging_token) == 0 ==> r == Err::<
                PlacedBelongingToken,
                GameError,
            >(GameError::BelongingUnavailable) && *final(self) == *old(self),
    {
        let i = belonging_token.id();
        if i < self.belonging_tokens.len() && self.belonging_tokens[i] > 0 {
            let n = self.belonging_tokens[i];
            self.belonging_tokens.set(i, n - 1);
            return Ok(PlacedBelongingToken { token: belonging_token, player_id: self.id });
        }
        Err(GameError::BelongingUnavailable)
    }

    /// Returns one auxiliary marker of kind `belonging_token` to the pool.
    pub fn takeback_belonging(&mut self, belonging_token: BelongingToken)
        requires
            old(self).belonging_count(belonging_token) < u32::MAX,
        ensures
            returned_belonging(*old(self), *final(self), belonging_token),
    {
        pool_add_one(&mut self.belonging_tokens, belonging_token.id());
    }
}

/// Counts after the first `i` of `n` draws of kind `t`.
proof fn lemma_after_draws(states: Seq<Player>, t: Token, n: nat, i: nat)
    requires
        i <= n,
        states.len() >= n + 1,
        forall|k: int| 0 <= k < n ==> drew_token(#[trigger] states[k], states[k + 1], t),
    ensures
        states[i as int].token_count(t) + i == states[0].token_count(t),
        forall|o: Token| o != t ==> states[i as int].token_count(o) == states[0].token_count(o),
        forall|b: BelongingToken| states[i as int].belonging_count(b) == states[0].belonging_count(b),
    decreases i,
{
    if i > 0 {
        lemma_after_draws(states, t, n, (i - 1) as nat);
        assert(drew_token(states[i - 1], states[i as int], t));
    }
}

/// Counts after the first `i` of `n` returns of kind `t` that follow `n` draws.
proof fn lemma_after_returns(states: Seq<Player>, t: Token, n: nat, i: nat)
    requires
        i <= n,
        states.len() == 2 * n + 1,
        forall|k: int| n <= k < 2 * n ==> returned_token(#[trigger] states[k], states[k + 1], t),
    ensures
        states[n + i as int].token_count(t) == states[n as int].token_count(t) + i,
        forall|o: Token| o != t ==> states[n + i as int].token_count(o) == states[n as int].token_count(o),
        forall|b: BelongingToken| states[n + i as int].belonging_count(b) == states[n as int].belonging_count(b),
    decreases i,
{
    if i > 0 {
        lemma_after_returns(states, t, n, (i - 1) as nat);
        assert(returned_token(states[n + i as int - 1], states[n + i as int], t));
    }
}

/// Drawing `n` tokens of one kind and then returning `n` tokens of that kind
/// leaves every pool count of the player as it was.
pub proof fn lemma_pool_conserved(states: Seq<Player>, t: Token, n: nat)
    requires
        states.len() == 2 * n + 1,
        forall|i: int| 0 <= i < n ==> drew_token(#[trigger] states[i], states[i + 1], t),
        forall|i: int| n <= i < 2 * n ==> returned_token(#[trigger] states[i], states[i + 1], t),
    ensures
        forall|o: Token| states[2 * n as int].token_count(o) == states[0].token_count(o),
        forall|b: BelongingToken|
            states[2 * n as int].belonging_count(b) == states[0].belonging_count(b),
{
    lemma_after_draws(states, t, n, n);
    lemma_after_returns(states, t, n, n);
}

} // verus!
