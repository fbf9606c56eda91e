use vstd::prelude::*;
use crate::action::Action;
use crate::clue::ClueRecord;
use crate::error::ActionError;
use crate::ids::PlayerId;
use crate::tile::Tile;

verus! {

/// The mathematical content of a game: what the rules speak about.
pub struct GameState {
    /// The grid's dimensions.
    pub size: Tile,
    /// Row labels first, then column labels.
    pub labels: Seq<Seq<char>>,
    /// The seats, in order.
    pub players: Seq<PlayerId>,
    /// The cell each seat holds, by seat number.
    pub player_tiles: Seq<Option<Tile>>,
    /// The cells not yet handed out; the last one is handed out next.
    pub deck: Seq<Tile>,
    /// The clue in play, if any.
    pub current_clue: Option<ClueRecord>,
    /// Who proposes each cell, by row, then column.
    pub votes: Seq<Seq<Seq<PlayerId>>>,
    /// The clue that solved each cell, by row, then column.
    pub solved: Seq<Seq<Option<ClueRecord>>>,
    /// The clues that were guessed wrongly, oldest first.
    pub failed: Seq<ClueRecord>,
}

/// A grid of the given dimensions with `cell` in every position.
pub open spec fn uniform_grid<T>(size: Tile, cell: T) -> Seq<Seq<T>> {
    Seq::new(size.row as nat, |r: int| Seq::new(size.col as nat, |c: int| cell))
}

/// The grid of votes with every list of voters emptied.
pub open spec fn emptied(votes: Seq<Seq<Seq<PlayerId>>>) -> Seq<Seq<Seq<PlayerId>>> {
    Seq::new(votes.len(), |r: int| Seq::new(votes[r].len(), |c: int| Seq::empty()))
}

/// Whether `grid` has exactly the given dimensions.
pub open spec fn has_shape<T>(grid: Seq<Seq<T>>, size: Tile) -> bool {
    &&& grid.len() == size.row
    &&& forall|r: int| 0 <= r < grid.len() ==> (#[trigger] grid[r]).len() == size.col
}

/// `grid` with the cell at `t` replaced.
pub open spec fn with_cell<T>(grid: Seq<Seq<T>>, t: Tile, cell: T) -> Seq<Seq<T>> {
    grid.update(t.row as int, grid[t.row as int].update(t.col as int, cell))
}

/// Where `player` first stands in `voters`.
pub open spec fn first_place(voters: Seq<PlayerId>, player: PlayerId) -> int
    recommends
        voters.contains(player),
{
    choose|at: int|
        0 <= at < voters.len() && voters[at] == player && forall|k: int|
            0 <= k < at ==> voters[k] != player
}

/// `voters` after `player` has set their vote to `vote`: a new voter joins at
/// the end, and one who withdraws leaves their place.
pub open spec fn toggled(voters: Seq<PlayerId>, player: PlayerId, vote: bool) -> Seq<PlayerId> {
    if vote {
        if voters.contains(player) {
            voters
        } else {
            voters.push(player)
        }
    } else {
        if voters.contains(player) {
            voters.remove(first_place(voters, player))
        } else {
            voters
        }
    }
}

impl GameState {
    /// The cell that `player` holds; `None` for a stranger too.
    pub open spec fn tile_of(self, player: PlayerId) -> Option<Tile> {
        if (player.0 as int) < self.player_tiles.len() {
            self.player_tiles[player.0 as int]
        } else {
            None
        }
    }

    /// Whether the cell has been guessed correctly.
    pub open spec fn is_solved(self, t: Tile) -> bool {
        self.solved[t.row as int][t.col as int] is Some
    }

    /// Whether some seat holds the cell.
    pub open spec fn is_held(self, t: Tile) -> bool {
        exists|i: int| 0 <= i < self.player_tiles.len() && #[trigger] self.player_tiles[i] == Some(t)
    }

    /// Who proposes the cell.
    pub open spec fn votes_at(self, t: Tile) -> Seq<PlayerId> {
        self.votes[t.row as int][t.col as int]
    }

    /// The deck is empty and nobody holds a cell.
    pub open spec fn game_over(self) -> bool {
        &&& self.deck.len() == 0
        &&& forall|i: int| 0 <= i < self.player_tiles.len() ==> #[trigger] self.player_tiles[i] is None
    }

    /// Seat `i` is player `i`, and every seat has a slot for its cell.
    pub open spec fn seats_in_order(self) -> bool {
        &&& self.players.len() == self.player_tiles.len()
        &&& self.players.len() <= u32::MAX
        &&& forall|i: int| 0 <= i < self.players.len() ==> (#[trigger] self.players[i]).0 == i
    }

    /// A cell is in the deck once, or held by one seat, or solved, or none of
    /// these; never two of them. Cells in the deck or in a hand lie on the grid.
    pub open spec fn tiles_disjoint(self) -> bool {
        &&& self.deck.no_duplicates()
        &&& forall|k: int|
            0 <= k < self.deck.len() ==> (#[trigger] self.deck[k]).within(self.size)
                && !self.is_solved(self.deck[k])
        &&& forall|i: int|
            0 <= i < self.player_tiles.len() && (#[trigger] self.player_tiles[i]) is Some ==> {
                let t = self.player_tiles[i].unwrap();
                t.within(self.size) && !self.deck.contains(t) && !self.is_solved(t)
            }
        &&& forall|i: int, j: int|
            0 <= i < j < self.player_tiles.len() && (#[trigger] self.player_tiles[i]) is Some
                ==> self.player_tiles[i] != #[trigger] self.player_tiles[j]
    }

    /// In how many places the cell is: the deck, a hand, the solved cells.
    pub open spec fn places(self, t: Tile) -> nat {
        let in_deck: nat = if self.deck.contains(t) { 1 } else { 0 };
        let in_hand: nat = if self.is_held(t) { 1 } else { 0 };
        let on_board: nat = if self.is_solved(t) { 1 } else { 0 };
        in_deck + in_hand + on_board
    }

    /// The deck, the hands and the solved cells share out the whole grid:
    /// every cell is in exactly one of them, and there only once.
    pub open spec fn is_partition(self) -> bool {
        &&& self.tiles_disjoint()
        &&& forall|t: Tile| #[trigger] t.within(self.size) ==> self.places(t) == 1
    }

    /// The clue in play is unresolved and is about the cell its owner holds.
    pub open spec fn clue_consistent(self) -> bool {
        match self.current_clue {
            None => true,
            Some(clue) => clue.is_active() && clue.secret is Some && clue.secret == self.tile_of(
                clue.owner,
            ),
        }
    }

    /// Nobody votes twice for a cell, and a solved cell has no votes.
    pub open spec fn votes_consistent(self) -> bool {
        &&& has_shape(self.votes, self.size)
        &&& forall|t: Tile| #[trigger]
            t.within(self.size) ==> self.votes_at(t).no_duplicates() && (self.is_solved(t)
                ==> self.votes_at(t).len() == 0)
    }

    /// A solved cell carries the clue that named it and was guessed right;
    /// a failed clue was guessed wrongly.
    pub open spec fn records_consistent(self) -> bool {
        &&& has_shape(self.solved, self.size)
        &&& forall|t: Tile| #[trigger]
            t.within(self.size) && self.is_solved(t) ==> {
                let record = self.solved[t.row as int][t.col as int].unwrap();
                record.secret == Some(t) && record.guess == Some(t) && record.guesser is Some
            }
        &&& forall|k: int|
            0 <= k < self.failed.len() ==> {
                let record = #[trigger] self.failed[k];
                record.secret is Some && record.guess is Some && record.guesser is Some
                    && !record.is_correct()
            }
    }

    /// What holds of every game from setup on.
    pub open spec fn inv(self) -> bool {
        &&& self.labels.len() == self.size.row + self.size.col
        &&& self.seats_in_order()
        &&& self.tiles_disjoint()
        &&& self.clue_consistent()
        &&& self.votes_consistent()
        &&& self.records_consistent()
    }

    /// The state after `player` gives a clue, or why they may not.
    pub open spec fn give_clue(self, player: PlayerId, text: Seq<char>) -> Result<GameState, ActionError> {
        if self.current_clue is Some {
            Err(ActionError::ClueAlreadyActive)
        } else {
            match self.tile_of(player) {
                None => Err(ActionError::NoSecretToClue),
                Some(secret) => Ok(
                    GameState { current_clue: Some(ClueRecord::fresh(player, secret, text)), ..self },
                ),
            }
        }
    }

    /// The state after `player` sets their vote on `tile`, or why they may not.
    pub open spec fn set_vote(self, player: PlayerId, tile: Tile, vote: bool) -> Result<GameState, ActionError> {
        if self.is_solved(tile) {
            Err(ActionError::TileAlreadySolved)
        } else {
            match self.current_clue {
                None => Err(ActionError::NoActiveClue),
                Some(clue) => if clue.owner == player {
                    Err(ActionError::VoteOnOwnClue)
                } else {
                    Ok(
                        GameState {
                            votes: with_cell(self.votes, tile, toggled(self.votes_at(tile), player, vote)),
                            ..self
                        },
                    )
                },
            }
        }
    }

    /// The cell handed out next, if the deck has one.
    pub open spec fn next_tile(self) -> Option<Tile> {
        if self.deck.len() > 0 {
            Some(self.deck.last())
        } else {
            None
        }
    }

    /// The deck after one cell was handed out; an empty deck stays empty.
    pub open spec fn rest_of_deck(self) -> Seq<Tile> {
        if self.deck.len() > 0 {
            self.deck.drop_last()
        } else {
            self.deck
        }
    }

    /// The state after `player` taps `tile`, or why they may not.
    pub open spec fn tap_tile(self, player: PlayerId, tile: Tile) -> Result<GameState, ActionError> {
        match self.current_clue {
            None => Err(ActionError::NoActiveClue),
            Some(clue) => if self.is_solved(tile) {
                Err(ActionError::TileAlreadySolved)
            } else if clue.owner == player {
                Err(ActionError::GuessOnOwnClue)
            } else {
                let record = clue.resolved(tile, player);
                Ok(
                    GameState {
                        player_tiles: self.player_tiles.update(clue.owner.0 as int, self.next_tile()),
                        deck: self.rest_of_deck(),
                        current_clue: None,
                        votes: uniform_grid(self.size, Seq::empty()),
                        solved: if record.is_correct() {
                            with_cell(self.solved, tile, Some(record))
                        } else {
                            self.solved
                        },
                        failed: if record.is_correct() {
                            self.failed
                        } else {
                            self.failed.push(record)
                        },
                        ..self
                    },
                )
            },
        }
    }

    /// The state that `player`'s request leaves: a refused action changes nothing.
    pub open spec fn after(self, player: PlayerId, action: Action) -> GameState {
        match self.step(player, action) {
            Ok(next) => next,
            Err(_) => self,
        }
    }

    /// The state that a series of requests leaves, each one applied in turn.
    pub open spec fn after_all(self, moves: Seq<(PlayerId, Action)>) -> GameState
        decreases moves.len(),
    {
        if moves.len() == 0 {
            self
        } else {
            self.after_all(moves.drop_last()).after(moves.last().0, moves.last().1)
        }
    }

    /// The state after `player` performs `action`, or why they may not.
    pub open spec fn step(self, player: PlayerId, action: Action) -> Result<GameState, ActionError> {
        match action {
            Action::GiveClue { clue } => self.give_clue(player, clue@),
            Action::SetVote { tile, vote } => self.set_vote(player, tile, vote),
            Action::TapTile { tile } => self.tap_tile(player, tile),
        }
    }
}

} // verus!
