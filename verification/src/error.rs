use vstd::prelude::*;
use vstd::string::StringExecFns;

verus! {

/// Why a game could not be set up.
#[derive(Clone, Copy, Debug, PartialEq, Eq, Structural)]
pub enum CreationError {
    /// The selected word lists and custom words hold fewer distinct words
    /// than the grid has row and column labels.
    NotEnoughWords,
}

/// Why an action was turned down. The game is left as it was.
#[derive(Clone, Copy, Debug, PartialEq, Eq, Structural)]
pub enum ActionError {
    /// A clue is already in play.
    ClueAlreadyActive,
    /// The player holds no cell to give a clue for, or is not seated.
    NoSecretToClue,
    /// The cell has already been guessed correctly.
    TileAlreadySolved,
    /// No clue is in play.
    NoActiveClue,
    /// The player tried to vote on their own clue.
    VoteOnOwnClue,
    /// The player tried to guess their own clue.
    GuessOnOwnClue,
}

impl CreationError {
    /// The text shown to the players.
    pub open spec fn reason_text(self) -> Seq<char> {
        "not enough distinct words for the grid"@
    }

    /// The text shown to the players.
    pub fn reason(&self) -> (text: String)
        ensures
            text@ == self.reason_text(),
    {
        String::from_str("not enough distinct words for the grid")
    }
}

impl ActionError {
    /// The text shown to the players.
    pub open spec fn reason_text(self) -> Seq<char> {
        match self {
            ActionError::ClueAlreadyActive => "clue already active"@,
            ActionError::NoSecretToClue => "no secret to clue"@,
            ActionError::TileAlreadySolved => "tile already solved"@,
            ActionError::NoActiveClue => "no active clue"@,
            ActionError::VoteOnOwnClue => "cannot vote on own clue"@,
            ActionError::GuessOnOwnClue => "cannot guess for own clue"@,
        }
    }

    /// The text shown to the players.
    pub fn reason(&self) -> (text: String)
        ensures
            text@ == self.reason_text(),
    {
        match self {
            ActionError::ClueAlreadyActive => String::from_str("clue already active"),
            ActionError::NoSecretToClue => String::from_str("no secret to clue"),
            ActionError::TileAlreadySolved => String::from_str("tile already solved"),
            ActionError::NoActiveClue => String::from_str("no active clue"),
            ActionError::VoteOnOwnClue => String::from_str("cannot vote on own clue"),
            ActionError::GuessOnOwnClue => String::from_str("cannot guess for own clue"),
        }
    }
}

} // verus!
