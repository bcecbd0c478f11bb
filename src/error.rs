//! Failures that the rules engine reports as ordinary values.
use vstd::prelude::*;

verus! {

#[derive(Clone, Copy, PartialEq, Eq, Debug, Structural)]
pub enum GameError {
    /// Two features of different kinds were to be joined into one region.
    HeterogeneousMerge,
    /// The player's pool holds no token of the requested kind.
    TokenUnavailable,
    /// The player's pool holds no auxiliary marker of the requested kind.
    BelongingUnavailable,
}

} // verus!
