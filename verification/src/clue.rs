use vstd::prelude::*;
use crate::ids::PlayerId;
use crate::tile::Tile;

verus! {

/// The mathematical content of a [`Clue`].
pub struct ClueRecord {
    /// Who gave the clue.
    pub owner: PlayerId,
    /// The cell the clue is about; `None` where it has been blanked.
    pub secret: Option<Tile>,
    /// The clue itself.
    pub text: Seq<char>,
    /// The cell that was tapped; `None` while the clue is in play.
    pub guess: Option<Tile>,
    /// Who tapped; `None` while the clue is in play.
    pub guesser: Option<PlayerId>,
}

impl ClueRecord {
    /// The record a player starts a round with.
    pub open spec fn fresh(owner: PlayerId, secret: Tile, text: Seq<char>) -> ClueRecord {
        ClueRecord { owner, secret: Some(secret), text, guess: None, guesser: None }
    }

    /// The same record with the answer blanked.
    pub open spec fn hidden(self) -> ClueRecord {
        ClueRecord { secret: None, ..self }
    }

    /// The same record once `guesser` has tapped `guess`.
    pub open spec fn resolved(self, guess: Tile, guesser: PlayerId) -> ClueRecord {
        ClueRecord { guess: Some(guess), guesser: Some(guesser), ..self }
    }

    /// In play: nobody has guessed yet.
    pub open spec fn is_active(self) -> bool {
        self.guess is None && self.guesser is None
    }

    /// Whether the guess named the cell that was meant.
    pub open spec fn is_correct(self) -> bool {
        self.secret == self.guess
    }
}

/// One round's clue.
#[derive(Debug, PartialEq, Eq)]
pub struct Clue {
    pub player: PlayerId,
    pub tile: Option<Tile>,
    pub clue: String,
    pub guess: Option<Tile>,
    pub guesser: Option<PlayerId>,
}

impl View for Clue {
    type V = ClueRecord;

    open spec fn view(&self) -> ClueRecord {
        ClueRecord {
            owner: self.player,
            secret: self.tile,
            text: self.clue@,
            guess: self.guess,
            guesser: self.guesser,
        }
    }
}

impl DeepView for Clue {
    type V = ClueRecord;

    open spec fn deep_view(&self) -> ClueRecord {
        self@
    }
}

impl Clone for Clue {
    fn clone(&self) -> (copy: Self)
        ensures
            copy == *self,
    {
        Clue {
            player: self.player,
            tile: self.tile,
            clue: self.clue.clone(),
            guess: self.guess,
            guesser: self.guesser,
        }
    }
}

impl Clue {
    /// A copy with the answer blanked; everything else is kept.
    pub fn hide_tile(&self) -> (copy: Self)
        ensures
            copy@ == self@.hidden(),
            copy.clue == self.clue,
    {
        Clue {
            player: self.player,
            tile: None,
            clue: self.clue.clone(),
            guess: self.guess,
            guesser: self.guesser,
        }
    }
}

/// Blanking is idempotent and touches nothing but the answer.
pub proof fn lemma_hidden_keeps_rest(c: ClueRecord)
    ensures
        c.hidden().secret is None,
        c.hidden().hidden() == c.hidden(),
        c.hidden().owner == c.owner,
        c.hidden().text == c.text,
        c.hidden().guess == c.guess,
        c.hidden().guesser == c.guesser,
{
}

} // verus!
