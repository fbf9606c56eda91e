use vstd::prelude::*;
use crate::action::Action;
use crate::error::ActionError;
use crate::ids::PlayerId;
use crate::board::lemma_first_place;
use crate::state::{first_place, GameState, has_shape, toggled};
use crate::tile::Tile;

verus! {

/// Giving a clue keeps a sound game sound.
pub proof fn lemma_give_clue_keeps_inv(s: GameState, player: PlayerId, text: Seq<char>)
    requires
        s.inv(),
        s.give_clue(player, text) is Ok,
    ensures
        s.give_clue(player, text).unwrap().inv(),
{
}

/// Setting a vote keeps the list free of repeats.
pub proof fn lemma_toggled_no_duplicates(voters: Seq<PlayerId>, player: PlayerId, vote: bool)
    requires
        voters.no_duplicates(),
    ensures
        toggled(voters, player, vote).no_duplicates(),
        toggled(voters, player, vote).contains(player) == vote,
        forall|p: PlayerId| p != player ==> toggled(voters, player, vote).contains(p) == voters.contains(p),
{
    let after = toggled(voters, player, vote);
    if vote {
        if !voters.contains(player) {
            assert(after.last() == player);
            assert forall|p: PlayerId| p != player implies after.contains(p) == voters.contains(p) by {
                if voters.contains(p) {
                    let k = voters.index_of(p);
                    assert(after[k] == p);
                }
            }
        }
    } else {
        if voters.contains(player) {
            lemma_first_place(voters, player);
            let at = first_place(voters, player);
            assert forall|p: PlayerId| p != player implies after.contains(p) == voters.contains(p) by {
                if voters.contains(p) {
                    let k = voters.index_of(p);
                    if k < at {
                        assert(after[k] == p);
                    } else {
                        assert(after[k - 1] == p);
                    }
                }
            }
            if after.contains(player) {
                let k = after.index_of(player);
                if k < at {
                    assert(voters[k] == player);
                } else {
                    assert(voters[k + 1] == player);
                }
            }
        }
    }
}

/// Setting a vote keeps a sound game sound.
pub proof fn lemma_set_vote_keeps_inv(s: GameState, player: PlayerId, tile: Tile, vote: bool)
    requires
        s.inv(),
        tile.within(s.size),
        s.set_vote(player, tile, vote) is Ok,
    ensures
        s.set_vote(player, tile, vote).unwrap().inv(),
{
    let after = s.set_vote(player, tile, vote).unwrap();
    lemma_toggled_no_duplicates(s.votes_at(tile), player, vote);
    assert(has_shape(after.votes, after.size));
    assert forall|t: Tile| #[trigger] t.within(after.size) implies after.votes_at(t).no_duplicates()
        && (after.is_solved(t) ==> after.votes_at(t).len() == 0) by {
        if t != tile {
            assert(after.votes_at(t) == s.votes_at(t));
        }
    }
}

/// Tapping a cell keeps a sound game sound.
pub proof fn lemma_tap_tile_keeps_inv(s: GameState, player: PlayerId, tile: Tile)
    requires
        s.inv(),
        tile.within(s.size),
        s.tap_tile(player, tile) is Ok,
    ensures
        s.tap_tile(player, tile).unwrap().inv(),
{
    let after = s.tap_tile(player, tile).unwrap();
    let clue = s.current_clue.unwrap();
    let record = clue.resolved(tile, player);
    let owner = clue.owner.0 as int;
    assert(0 <= owner < s.player_tiles.len());
    assert(s.player_tiles[owner] == clue.secret);
    assert(has_shape(after.votes, after.size));
    assert(has_shape(after.solved, after.size));
    assert forall|t: Tile| #[trigger] t.within(after.size) implies after.votes_at(t).no_duplicates()
        && (after.is_solved(t) ==> after.votes_at(t).len() == 0) by {
        assert(after.votes_at(t) == Seq::<PlayerId>::empty());
    }
    assert forall|t: Tile| #[trigger] t.within(after.size) && after.is_solved(t) implies ({
        let r = after.solved[t.row as int][t.col as int].unwrap();
        r.secret == Some(t) && r.guess == Some(t) && r.guesser is Some
    }) by {
        if t != tile {
            assert(after.solved[t.row as int][t.col as int] == s.solved[t.row as int][t.col as int]);
            assert(s.is_solved(t));
        }
    }
    assert(after.records_consistent());
    assert(after.tiles_disjoint()) by {
        lemma_tap_tile_keeps_tiles_disjoint(s, player, tile);
    }
}

/// Every accepted action keeps a sound game sound.
pub proof fn lemma_step_keeps_inv(s: GameState, player: PlayerId, action: Action)
    requires
        s.inv(),
        action.fits(s.size),
        s.step(player, action) is Ok,
    ensures
        s.step(player, action).unwrap().inv(),
{
    match action {
        Action::GiveClue { clue } => lemma_give_clue_keeps_inv(s, player, clue@),
        Action::SetVote { tile, vote } => lemma_set_vote_keeps_inv(s, player, tile, vote),
        Action::TapTile { tile } => lemma_tap_tile_keeps_inv(s, player, tile),
    }
}

/// Whether every cell named in the series lies on the grid.
pub open spec fn all_fit(moves: Seq<(PlayerId, Action)>, size: Tile) -> bool {
    forall|k: int| 0 <= k < moves.len() ==> (#[trigger] moves[k]).1.fits(size)
}

/// No action changes the grid's dimensions, the labels or the seats.
pub proof fn lemma_step_keeps_frame(s: GameState, player: PlayerId, action: Action)
    ensures
        s.after(player, action).size == s.size,
        s.after(player, action).labels == s.labels,
        s.after(player, action).players == s.players,
{
}

/// A game that starts sound stays sound whatever the players ask for.
pub proof fn lemma_play_keeps_inv(s: GameState, moves: Seq<(PlayerId, Action)>)
    requires
        s.inv(),
        all_fit(moves, s.size),
    ensures
        s.after_all(moves).inv(),
        s.after_all(moves).size == s.size,
        s.after_all(moves).labels == s.labels,
        s.after_all(moves).players == s.players,
    decreases moves.len(),
{
    if moves.len() > 0 {
        let before = s.after_all(moves.drop_last());
        let last = moves.last();
        assert(all_fit(moves.drop_last(), s.size)) by {
            assert forall|k: int| 0 <= k < moves.drop_last().len() implies (
            #[trigger] moves.drop_last()[k]).1.fits(s.size) by {
                assert(moves.drop_last()[k] == moves[k]);
            }
        }
        lemma_play_keeps_inv(s, moves.drop_last());
        assert(last == moves[moves.len() - 1]);
        lemma_step_keeps_frame(before, last.0, last.1);
        if before.step(last.0, last.1) is Ok {
            lemma_step_keeps_inv(before, last.0, last.1);
        }
    }
}

/// At most one clue is in play: no clue can be given while one is active,
/// and an accepted tap leaves none.
pub proof fn lemma_single_active_clue(s: GameState, player: PlayerId, text: Seq<char>, tile: Tile)
    ensures
        s.current_clue is Some ==> s.give_clue(player, text) == Err::<GameState, ActionError>(
            ActionError::ClueAlreadyActive,
        ),
        s.give_clue(player, text) is Ok ==> s.current_clue is None && s.give_clue(
            player,
            text,
        ).unwrap().current_clue is Some,
        s.tap_tile(player, tile) is Ok ==> s.tap_tile(player, tile).unwrap().current_clue is None,
{
}

/// The deck only shrinks, and only from its end: a clue or a vote leaves it
/// alone, and an accepted tap hands out its last cell to the clue's owner.
/// Once it is empty it stays empty, and the owner is left without a cell.
pub proof fn lemma_deck_shrinks(s: GameState, player: PlayerId, action: Action)
    requires
        s.inv(),
    ensures
        s.after(player, action).deck.len() <= s.deck.len(),
        s.after(player, action).deck == s.deck.take(s.after(player, action).deck.len() as int),
        !(action is TapTile) || s.step(player, action) is Err ==> s.after(player, action).deck
            == s.deck,
        action is TapTile && s.step(player, action) is Ok ==> {
            let next = s.after(player, action);
            let owner = s.current_clue.unwrap().owner;
            &&& s.deck.len() > 0 ==> next.deck.len() == s.deck.len() - 1 && next.tile_of(owner)
                == Some(s.deck.last())
            &&& s.deck.len() == 0 ==> next.deck.len() == 0 && next.tile_of(owner) is None
        },
{
    let next = s.after(player, action);
    assert(next.deck =~= s.deck.take(next.deck.len() as int));
}

/// Over a whole game the deck never grows.
pub proof fn lemma_deck_never_grows(s: GameState, moves: Seq<(PlayerId, Action)>)
    requires
        s.inv(),
        all_fit(moves, s.size),
    ensures
        s.after_all(moves).deck.len() <= s.deck.len(),
        s.after_all(moves).deck == s.deck.take(s.after_all(moves).deck.len() as int),
    decreases moves.len(),
{
    if moves.len() > 0 {
        let before = s.after_all(moves.drop_last());
        let last = moves.last();
        assert(all_fit(moves.drop_last(), s.size)) by {
            assert forall|k: int| 0 <= k < moves.drop_last().len() implies (
            #[trigger] moves.drop_last()[k]).1.fits(s.size) by {
                assert(moves.drop_last()[k] == moves[k]);
            }
        }
        lemma_deck_never_grows(s, moves.drop_last());
        lemma_play_keeps_inv(s, moves.drop_last());
        lemma_deck_shrinks(before, last.0, last.1);
        let end = before.after(last.0, last.1);
        assert(end.deck =~= s.deck.take(end.deck.len() as int));
    } else {
        assert(s.deck =~= s.deck.take(s.deck.len() as int));
    }
}

/// A solved cell stays solved, with the clue that solved it.
pub proof fn lemma_solved_is_permanent(s: GameState, player: PlayerId, action: Action, t: Tile)
    requires
        s.inv(),
        action.fits(s.size),
        t.within(s.size),
        s.is_solved(t),
    ensures
        s.after(player, action).is_solved(t),
        s.after(player, action).solved[t.row as int][t.col as int] == s.solved[t.row as int][t.col as int],
{
}

/// Over a whole game a solved cell stays solved, with the clue that solved it.
pub proof fn lemma_solved_stays_solved(s: GameState, moves: Seq<(PlayerId, Action)>, t: Tile)
    requires
        s.inv(),
        all_fit(moves, s.size),
        t.within(s.size),
        s.is_solved(t),
    ensures
        s.after_all(moves).is_solved(t),
        s.after_all(moves).solved[t.row as int][t.col as int] == s.solved[t.row as int][t.col as int],
    decreases moves.len(),
{
    if moves.len() > 0 {
        let before = s.after_all(moves.drop_last());
        let last = moves.last();
        assert(all_fit(moves.drop_last(), s.size)) by {
            assert forall|k: int| 0 <= k < moves.drop_last().len() implies (
            #[trigger] moves.drop_last()[k]).1.fits(s.size) by {
                assert(moves.drop_last()[k] == moves[k]);
            }
        }
        lemma_solved_stays_solved(s, moves.drop_last(), t);
        lemma_play_keeps_inv(s, moves.drop_last());
        assert(last == moves[moves.len() - 1]);
        lemma_solved_is_permanent(before, last.0, last.1, t);
    }
}

/// Setting a vote twice is the same as setting it once.
pub proof fn lemma_vote_is_idempotent(s: GameState, player: PlayerId, tile: Tile, vote: bool)
    requires
        s.inv(),
        tile.within(s.size),
        s.set_vote(player, tile, vote) is Ok,
    ensures
        s.set_vote(player, tile, vote).unwrap().set_vote(player, tile, vote) == s.set_vote(
            player,
            tile,
            vote,
        ),
{
    let once = s.set_vote(player, tile, vote).unwrap();
    let voters = s.votes_at(tile);
    lemma_toggled_no_duplicates(voters, player, vote);
    assert(once.votes_at(tile) == toggled(voters, player, vote));
    assert(toggled(once.votes_at(tile), player, vote) == once.votes_at(tile));
    let twice = once.set_vote(player, tile, vote).unwrap();
    assert(twice.votes =~= once.votes) by {
        assert(twice.votes[tile.row as int] =~= once.votes[tile.row as int]);
    }
}

/// A refused request changes nothing, and the next request meets the same game.
pub proof fn lemma_refusal_changes_nothing(s: GameState, player: PlayerId, action: Action)
    requires
        s.step(player, action) is Err,
    ensures
        s.after(player, action) == s,
{
}

/// Tapping a cell never puts a cell in two places.
proof fn lemma_tap_tile_keeps_tiles_disjoint(s: GameState, player: PlayerId, tile: Tile)
    requires
        s.inv(),
        tile.within(s.size),
        s.tap_tile(player, tile) is Ok,
    ensures
        s.tap_tile(player, tile).unwrap().tiles_disjoint(),
{
    let after = s.tap_tile(player, tile).unwrap();
    let clue = s.current_clue.unwrap();
    let record = clue.resolved(tile, player);
    let owner = clue.owner.0 as int;
    assert(0 <= owner < s.player_tiles.len());
    assert(s.player_tiles[owner] == clue.secret);
    // What is solved after the tap: what was solved before, and the tapped
    // cell where the guess was right.
    assert forall|t: Tile| t.within(s.size) && after.is_solved(t) implies s.is_solved(t) || (t
        == tile && record.is_correct()) by {
        if t != tile {
            assert(after.solved[t.row as int][t.col as int] == s.solved[t.row as int][t.col as int]);
        }
    }
    assert forall|k: int| 0 <= k < after.deck.len() implies (#[trigger] after.deck[k]).within(
        after.size,
    ) && !after.is_solved(after.deck[k]) by {
        assert(after.deck[k] == s.deck[k]);
        assert(s.deck.contains(s.deck[k]));
    }
    assert forall|i: int|
        0 <= i < after.player_tiles.len() && (#[trigger] after.player_tiles[i]) is Some implies ({
        let t = after.player_tiles[i].unwrap();
        t.within(after.size) && !after.deck.contains(t) && !after.is_solved(t)
    }) by {
        let t = after.player_tiles[i].unwrap();
        if i == owner {
            assert(t == s.deck.last());
            assert(s.deck[s.deck.len() - 1] == t);
            if after.deck.contains(t) {
                let k = after.deck.index_of(t);
                assert(s.deck[k] == t);
            }
            assert(s.deck.contains(t));
        } else {
            assert(s.player_tiles[i] == Some(t));
            if after.deck.contains(t) {
                let k = after.deck.index_of(t);
                assert(s.deck[k] == t);
                assert(s.deck.contains(t));
            }
        }
    }
    assert forall|i: int, j: int|
        0 <= i < j < after.player_tiles.len() && (#[trigger] after.player_tiles[i]) is Some implies after.player_tiles[i]
        != #[trigger] after.player_tiles[j] by {
        if s.deck.len() > 0 {
            let t = s.deck.last();
            assert(s.deck[s.deck.len() - 1] == t);
            assert(s.deck.contains(t));
            if i != owner {
                assert(s.player_tiles[i] is Some);
            }
            if j != owner && s.player_tiles[j] is Some {
                assert(s.player_tiles[j] is Some);
            }
        }
    }
}

} // verus!
