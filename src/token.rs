//! Ownership markers that players lay on features.
use vstd::prelude::*;

verus! {

/// A marker that claims a feature for its owner.
#[derive(Clone, Copy, PartialEq, Eq, Hash, Debug, Structural)]
pub enum Token {
    Meeple,
    BigMeeple,
}

impl Token {
    /// Slot of this kind in a player's pool.
    pub open spec fn spec_id(self) -> int {
        match self {
            Token::Meeple => 0,
            Token::BigMeeple => 1,
        }
    }

    pub fn id(&self) -> (r: usize)
        ensures
            r == self.spec_id(),
    {
        match self {
            Token::Meeple => 0,
            Token::BigMeeple => 1,
        }
    }
}

/// An auxiliary marker that rides along with a placed token.
#[derive(Clone, Copy, PartialEq, Eq, Hash, Debug, Structural)]
pub enum BelongingToken {
    Builder,
    Pig,
}

impl BelongingToken {
    /// Slot of this kind in a player's pool of auxiliary markers.
    pub open spec fn spec_id(self) -> int {
        match self {
            BelongingToken::Builder => 0,
            BelongingToken::Pig => 1,
        }
    }

    pub fn id(&self) -> (r: usize)
        ensures
            r == self.spec_id(),
    {
        match self {
            BelongingToken::Builder => 0,
            BelongingToken::Pig => 1,
        }
    }
}

/// A marker owned by no player.
#[derive(Clone, Copy, PartialEq, Eq, Hash, Debug, Structural)]
pub enum PublicToken {
    Dragon,
}

/// An auxiliary marker owned by no player.
#[derive(Clone, Copy, PartialEq, Eq, Hash, Debug, Structural)]
pub enum PublicBelongingToken {
    Fairy,
}

/// A token on the board, with the player it was drawn from.
pub struct PlacedToken {
    pub token: Token,
    pub belonging: Vec<PlacedBelongingToken>,
    pub public_belonging: Vec<PublicBelongingToken>,
    pub player_id: usize,
}

/// An auxiliary marker on the board, with the player it was drawn from.
pub struct PlacedBelongingToken {
    pub token: BelongingToken,
    pub player_id: usize,
}

} // verus!
