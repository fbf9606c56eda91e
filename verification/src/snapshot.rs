use vstd::prelude::*;
use crate::clue::{Clue, ClueRecord};
use crate::ids::PlayerId;
use crate::state::GameState;
use crate::tile::Tile;

verus! {

/// The mathematical content of what one onlooker is shown.
pub struct Snapshot {
    /// The grid's dimensions.
    pub size: Tile,
    /// Row labels first, then column labels.
    pub labels: Seq<Seq<char>>,
    /// The seats, in order.
    pub players: Seq<PlayerId>,
    /// The seats that hold a cell, in seat order; not which cell.
    pub players_with_tiles: Seq<PlayerId>,
    /// The onlooker's own cell.
    pub player_tile: Option<Tile>,
    /// The clue in play, its answer blanked for all but its owner.
    pub current_clue: Option<ClueRecord>,
    /// How many cells the deck still holds.
    pub tiles_remaining: nat,
    /// Who proposes each cell.
    pub votes: Seq<Seq<Seq<PlayerId>>>,
    /// The clue that solved each cell.
    pub solved: Seq<Seq<Option<ClueRecord>>>,
    /// The wrongly guessed clues, their answers blanked until the game is over.
    pub failed: Seq<ClueRecord>,
}

/// What `viewer` is shown of the clue in play.
pub open spec fn shown_clue(clue: Option<ClueRecord>, viewer: Option<PlayerId>) -> Option<ClueRecord> {
    match clue {
        None => None,
        Some(c) => if Some(c.owner) == viewer {
            Some(c)
        } else {
            Some(c.hidden())
        },
    }
}

/// What everybody is shown of the wrongly guessed clues.
pub open spec fn shown_failed(failed: Seq<ClueRecord>, over: bool) -> Seq<ClueRecord> {
    if over {
        failed
    } else {
        failed.map_values(|c: ClueRecord| c.hidden())
    }
}

/// The test that picks the seats holding a cell.
pub open spec fn holds_tile(s: GameState) -> spec_fn(PlayerId) -> bool {
    |p: PlayerId| s.tile_of(p) is Some
}

/// What `viewer` is shown of the game; `None` stands for a spectator.
pub open spec fn project(s: GameState, viewer: Option<PlayerId>) -> Snapshot {
    Snapshot {
        size: s.size,
        labels: s.labels,
        players: s.players,
        players_with_tiles: s.players.filter(holds_tile(s)),
        player_tile: match viewer {
            Some(p) => s.tile_of(p),
            None => None,
        },
        current_clue: shown_clue(s.current_clue, viewer),
        tiles_remaining: s.deck.len(),
        votes: s.votes,
        solved: s.solved,
        failed: shown_failed(s.failed, s.game_over()),
    }
}

/// The answer of the clue in play is shown to its owner and to nobody else;
/// the answers of the wrongly guessed clues are shown to nobody until the
/// game is over, and to everybody from then on.
pub proof fn lemma_secrets_are_hidden(s: GameState, viewer: Option<PlayerId>)
    ensures
        s.current_clue is None ==> project(s, viewer).current_clue is None,
        s.current_clue is Some ==> {
            let clue = s.current_clue.unwrap();
            let shown = project(s, viewer).current_clue;
            &&& shown is Some
            &&& Some(clue.owner) != viewer ==> shown.unwrap().secret is None && shown.unwrap()
                == clue.hidden()
            &&& Some(clue.owner) == viewer ==> shown.unwrap() == clue
        },
        project(s, viewer).failed.len() == s.failed.len(),
        !s.game_over() ==> forall|i: int|
            0 <= i < s.failed.len() ==> (#[trigger] project(s, viewer).failed[i]).secret is None
                && project(s, viewer).failed[i] == s.failed[i].hidden(),
        s.game_over() ==> project(s, viewer).failed == s.failed,
        s.game_over() && s.inv() ==> forall|i: int|
            0 <= i < s.failed.len() ==> (#[trigger] project(s, viewer).failed[i]).secret is Some,
{
}

/// Whether two games differ at most in what `viewer` may not know: the
/// cells in the deck, the cells the others hold, the answer of another
/// player's clue, and, while the game runs, the answers of the failed clues.
pub open spec fn alike_for(a: GameState, b: GameState, viewer: Option<PlayerId>) -> bool {
    &&& a.size == b.size
    &&& a.labels == b.labels
    &&& a.players == b.players
    &&& a.votes == b.votes
    &&& a.solved == b.solved
    &&& a.deck.len() == b.deck.len()
    &&& a.player_tiles.len() == b.player_tiles.len()
    &&& forall|i: int|
        0 <= i < a.player_tiles.len() ==> ((#[trigger] a.player_tiles[i]) is Some
            <==> b.player_tiles[i] is Some)
    &&& viewer is Some ==> a.tile_of(viewer.unwrap()) == b.tile_of(viewer.unwrap())
    &&& shown_clue(a.current_clue, viewer) == shown_clue(b.current_clue, viewer)
    &&& a.failed.len() == b.failed.len()
    &&& forall|k: int|
        0 <= k < a.failed.len() ==> (#[trigger] a.failed[k]).hidden() == b.failed[k].hidden()
    &&& a.game_over() ==> a.failed == b.failed
}

/// Two tests that agree on every item pick the same items.
proof fn lemma_filter_agrees<T>(items: Seq<T>, p: spec_fn(T) -> bool, q: spec_fn(T) -> bool)
    requires
        forall|i: int| 0 <= i < items.len() ==> p(#[trigger] items[i]) == q(items[i]),
    ensures
        items.filter(p) == items.filter(q),
    decreases items.len(),
{
    reveal(Seq::filter);
    if items.len() > 0 {
        let rest = items.drop_last();
        assert forall|i: int| 0 <= i < rest.len() implies p(#[trigger] rest[i]) == q(rest[i]) by {
            assert(rest[i] == items[i]);
        }
        lemma_filter_agrees(rest, p, q);
        assert(items.last() == items[items.len() - 1]);
    }
}

/// What a player is shown tells them nothing of what they may not know:
/// two games that differ in that alone look the same to them.
pub proof fn lemma_view_keeps_secrets(a: GameState, b: GameState, viewer: Option<PlayerId>)
    requires
        alike_for(a, b, viewer),
    ensures
        project(a, viewer) == project(b, viewer),
{
    assert(a.game_over() == b.game_over()) by {
        if a.game_over() {
            assert forall|i: int| 0 <= i < b.player_tiles.len() implies (
            #[trigger] b.player_tiles[i]) is None by {
                assert(a.player_tiles[i] is None);
            }
        }
        if b.game_over() {
            assert forall|i: int| 0 <= i < a.player_tiles.len() implies (
            #[trigger] a.player_tiles[i]) is None by {
                assert(b.player_tiles[i] is None);
            }
        }
    }
    assert(a.players.filter(holds_tile(a)) == b.players.filter(holds_tile(b))) by {
        assert forall|i: int| 0 <= i < a.players.len() implies holds_tile(a)(#[trigger] a.players[i])
            == holds_tile(b)(a.players[i]) by {
            let seat = a.players[i].0 as int;
            if seat < a.player_tiles.len() {
                assert((a.player_tiles[seat] is Some) == (b.player_tiles[seat] is Some));
            }
        }
        lemma_filter_agrees(a.players, holds_tile(a), holds_tile(b));
    }
    assert(shown_failed(a.failed, a.game_over()) =~= shown_failed(b.failed, b.game_over()));
}

/// A spectator is never shown a cell of their own nor the answer of the clue in play.
pub proof fn lemma_spectator_sees_no_secret(s: GameState)
    ensures
        project(s, None).player_tile is None,
        project(s, None).current_clue is Some ==> project(s, None).current_clue.unwrap().secret is None,
{
}

/// What one onlooker is shown of a game.
#[derive(Debug)]
pub struct View<'a> {
    pub size: &'a Tile,
    pub labels: &'a Vec<String>,
    pub players: &'a Vec<PlayerId>,
    pub players_with_tiles: Vec<PlayerId>,
    pub player_tile: Option<Tile>,
    pub current_clue: Option<Clue>,
    pub tiles_remaining: usize,
    pub votes: &'a Vec<Vec<Vec<PlayerId>>>,
    pub good_clues: &'a Vec<Vec<Option<Clue>>>,
    pub bad_clues: Vec<Clue>,
}

impl<'a> vstd::view::View for View<'a> {
    type V = Snapshot;

    open spec fn view(&self) -> Snapshot {
        Snapshot {
            size: *self.size,
            labels: self.labels.deep_view(),
            players: self.players@,
            players_with_tiles: self.players_with_tiles@,
            player_tile: self.player_tile,
            current_clue: self.current_clue.deep_view(),
            tiles_remaining: self.tiles_remaining as nat,
            votes: self.votes.deep_view(),
            solved: self.good_clues.deep_view(),
            failed: self.bad_clues.deep_view(),
        }
    }
}

} // verus!
