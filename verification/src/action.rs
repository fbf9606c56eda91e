use vstd::prelude::*;
use crate::tile::Tile;

verus! {

/// What a player may ask the game to do.
#[derive(Debug, PartialEq, Eq)]
pub enum Action {
    /// Give a clue for the cell the player holds.
    GiveClue { clue: String },
    /// Propose a cell as the guess, or withdraw the proposal.
    SetVote { tile: Tile, vote: bool },
    /// Commit a cell as the guess for the clue in play.
    TapTile { tile: Tile },
}

impl Clone for Action {
    fn clone(&self) -> (copy: Self)
        ensures
            copy == *self,
    {
        match self {
            Action::GiveClue { clue } => Action::GiveClue { clue: clue.clone() },
            Action::SetVote { tile, vote } => Action::SetVote { tile: *tile, vote: *vote },
            Action::TapTile { tile } => Action::TapTile { tile: *tile },
        }
    }
}

impl Action {
    /// Whether every cell the action names lies on a grid of the given dimensions.
    pub open spec fn fits(self, size: Tile) -> bool {
        match self {
            Action::GiveClue { .. } => true,
            Action::SetVote { tile, .. } => tile.within(size),
            Action::TapTile { tile } => tile.within(size),
        }
    }

    /// Tests whether every cell the action names lies on a grid of the given dimensions.
    pub fn is_on_grid(&self, size: &Tile) -> (ok: bool)
        ensures
            ok == self.fits(*size),
    {
        match self {
            Action::GiveClue { .. } => true,
            Action::SetVote { tile, .. } => tile.is_within(size),
            Action::TapTile { tile } => tile.is_within(size),
        }
    }
}

} // verus!
