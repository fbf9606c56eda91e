use vstd::prelude::*;
use crate::action::Action;
use crate::board::{clear_votes, lemma_emptied_grid, lemma_voters_deep_view, toggle};
use crate::clue::Clue;
use crate::config::{Config, WordList};
use crate::copies::{clone_clues, clone_solved, clone_votes, clone_words};
use crate::error::{ActionError, CreationError};
use crate::ids::PlayerId;
use crate::laws::lemma_step_keeps_inv;
use crate::parts::GameParts;
use crate::random::{choose_words, shuffle_tiles};
use crate::setup::{
    all_tiles, dealt, grid_tiles, is_fresh, is_grid_permutation, lemma_dealt_is_sound,
    lemma_draw_is_distinct, lemma_grid_tiles_permutation, lemma_reordered_grid, seats,
};
use crate::snapshot::{holds_tile, project, shown_failed};
use crate::state::{toggled, uniform_grid, with_cell, GameState};
use crate::tile::Tile;

verus! {

/// One game in progress.
#[derive(Debug)]
pub struct Game {
    size: Tile,
    labels: Vec<String>,
    players: Vec<PlayerId>,
    player_tiles: Vec<Option<Tile>>,
    current_clue: Option<Clue>,
    tiles: Vec<Tile>,
    votes: Vec<Vec<Vec<PlayerId>>>,
    good_clues: Vec<Vec<Option<Clue>>>,
    bad_clues: Vec<Clue>,
}

impl Clone for Game {
    fn clone(&self) -> (copy: Self)
        ensures
            copy.state() == self.state(),
    {
        let copy = Game {
            size: self.size,
            labels: clone_words(&self.labels),
            players: self.players.clone(),
            player_tiles: self.player_tiles.clone(),
            current_clue: match &self.current_clue {
                Some(clue) => Some(clue.clone()),
                None => None,
            },
            tiles: self.tiles.clone(),
            votes: clone_votes(&self.votes),
            good_clues: clone_solved(&self.good_clues),
            bad_clues: clone_clues(&self.bad_clues),
        };
        proof {
            assert(copy.players@ =~= self.players@);
            assert(copy.player_tiles@ =~= self.player_tiles@);
            assert(copy.tiles@ =~= self.tiles@);
        }
        copy
    }
}

impl Game {
    /// The mathematical content of the game.
    pub closed spec fn state(&self) -> GameState {
        GameState {
            size: self.size,
            labels: self.labels.deep_view(),
            players: self.players@,
            player_tiles: self.player_tiles@,
            deck: self.tiles@,
            current_clue: self.current_clue.deep_view(),
            votes: self.votes.deep_view(),
            solved: self.good_clues.deep_view(),
            failed: self.bad_clues.deep_view(),
        }
    }

    /// Whether the game is one that setup and the rules can lead to.
    pub open spec fn wf(&self) -> bool {
        self.state().inv()
    }

    /// Sets up a game for `num_players` seats.
    ///
    /// The cells are shuffled and dealt, and the labels are drawn from the
    /// word pool, both at random. Setup fails if the pool has fewer distinct
    /// words than the grid has labels.
    pub fn new(config: Config, catalog: &Vec<WordList>, num_players: u32) -> (made: Result<
        Game,
        CreationError,
    >)
        requires
            config.can_set_up(catalog@),
        ensures
            match made {
                Ok(game) => {
                    &&& config.word_pool(catalog@).len() >= config.size.row + config.size.col
                    &&& game.wf()
                    &&& is_fresh(game.state(), config.size, num_players as nat)
                    &&& game.state().is_partition()
                    &&& game.state().labels.no_duplicates()
                    &&& forall|i: int|
                        0 <= i < game.state().labels.len() ==> config.word_pool(catalog@).contains(
                            #[trigger] game.state().labels[i],
                        )
                },
                Err(e) => {
                    &&& e == CreationError::NotEnoughWords
                    &&& config.word_pool(catalog@).len() < config.size.row + config.size.col
                },
            },
    {
        let size = config.size;
        let mut tiles = all_tiles(&size);
        shuffle_tiles(&mut tiles);
        proof {
            lemma_grid_tiles_permutation(size);
            lemma_reordered_grid(grid_tiles(size), tiles@, size);
        }
        let words = config.gather_words(catalog);
        if words.len() < size.row + size.col {
            return Err(CreationError::NotEnoughWords);
        }
        let labels = choose_words(&words, size.row + size.col);
        proof {
            lemma_draw_is_distinct(labels.deep_view(), words.deep_view());
        }
        let game = Game::deal(size, labels, tiles, num_players);
        proof {
            assert(is_grid_permutation(tiles@, size) && game.state() == dealt(
                size,
                game.state().labels,
                tiles@,
                num_players as nat,
            ));
        }
        Ok(game)
    }

    /// Sets up a game from a shuffled pile of cells and the labels drawn for it.
    ///
    /// Each seat in turn takes the last cell of the pile while there is one;
    /// what is left is the deck.
    pub fn deal(size: Tile, labels: Vec<String>, shuffled: Vec<Tile>, num_players: u32) -> (game: Game)
        requires
            is_grid_permutation(shuffled@, size),
            labels.len() == size.row + size.col,
        ensures
            game.state() == dealt(size, labels.deep_view(), shuffled@, num_players as nat),
            game.wf(),
            game.state().is_partition(),
    {
        let ghost pile = shuffled@;
        let ghost m = shuffled.len() as int;
        let mut tiles = shuffled;
        let mut players: Vec<PlayerId> = Vec::new();
        let mut player_tiles: Vec<Option<Tile>> = Vec::new();
        let mut seat: u32 = 0;
        while seat < num_players
            invariant
                seat <= num_players,
                m == pile.len(),
                players@ == seats(seat as nat),
                player_tiles.len() == seat,
                forall|i: int|
                    0 <= i < seat ==> #[trigger] player_tiles[i] == if i < m {
                        Some(pile[m - 1 - i])
                    } else {
                        None::<Tile>
                    },
                tiles@ == if seat <= m {
                    pile.take(m - seat)
                } else {
                    Seq::<Tile>::empty()
                },
            decreases num_players - seat,
        {
            players.push(PlayerId(seat));
            player_tiles.push(tiles.pop());
            seat += 1;
            assert(players@ =~= seats(seat as nat));
        }
        let votes = blank_grid::<Vec<PlayerId>>(&size);
        let good_clues = blank_grid::<Option<Clue>>(&size);
        let game = Game {
            size,
            labels,
            players,
            player_tiles,
            current_clue: None,
            tiles,
            votes,
            good_clues,
            bad_clues: Vec::new(),
        };
        proof {
            let want = dealt(size, labels.deep_view(), pile, num_players as nat);
            assert(game.state().player_tiles =~= want.player_tiles);
            assert(game.state().failed =~= want.failed);
            lemma_blank_votes(game.votes, size);
            lemma_blank_solved(game.good_clues, size);
            lemma_dealt_is_sound(size, labels.deep_view(), pile, num_players as nat);
        }
        game
    }

    /// Takes up a stored game, if it is one that setup and the rules can lead to.
    pub fn from_parts(parts: GameParts) -> (game: Option<Game>)
        ensures
            match game {
                Some(g) => parts.state().inv() && g.state() == parts.state() && g.wf(),
                None => !parts.state().inv(),
            },
    {
        if !parts.is_sound() {
            return None;
        }
        Some(
            Game {
                size: parts.size,
                labels: parts.labels,
                players: parts.players,
                player_tiles: parts.player_tiles,
                current_clue: parts.current_clue,
                tiles: parts.tiles,
                votes: parts.votes,
                good_clues: parts.good_clues,
                bad_clues: parts.bad_clues,
            },
        )
    }

    /// Hands the game over in its stored form.
    pub fn into_parts(self) -> (parts: GameParts)
        ensures
            parts.state() == self.state(),
    {
        GameParts {
            size: self.size,
            labels: self.labels,
            players: self.players,
            player_tiles: self.player_tiles,
            current_clue: self.current_clue,
            tiles: self.tiles,
            votes: self.votes,
            good_clues: self.good_clues,
            bad_clues: self.bad_clues,
        }
    }

    /// The slot that holds `player`'s cell; a stranger has none.
    fn get_player_tile(&mut self, player: &PlayerId) -> (slot: Result<&mut Option<Tile>, ActionError>)
        ensures
            match slot {
                Ok(cell) => {
                    &&& (player.0 as int) < old(self).player_tiles.len()
                    &&& *cell == old(self).player_tiles[player.0 as int]
                    &&& *final(self) == Game {
                        player_tiles: final(self).player_tiles,
                        ..*old(self)
                    }
                    &&& final(self).player_tiles@ == old(self).player_tiles@.update(
                        player.0 as int,
                        *final(cell),
                    )
                },
                Err(e) => {
                    &&& e == ActionError::NoSecretToClue
                    &&& (player.0 as int) >= old(self).player_tiles.len()
                    &&& *final(self) == *old(self)
                },
            },
    {
        let seat = player.0 as usize;
        if seat < self.player_tiles.len() {
            Ok(&mut self.player_tiles[seat])
        } else {
            Err(ActionError::NoSecretToClue)
        }
    }

    /// The cell that `player` holds; `None` for a stranger too.
    pub fn held_tile(&self, player: PlayerId) -> (held: Option<Tile>)
        ensures
            held == self.state().tile_of(player),
    {
        let seat = player.0 as usize;
        if seat < self.player_tiles.len() {
            self.player_tiles[seat]
        } else {
            None
        }
    }

    /// Whether the cell has been guessed correctly.
    fn is_solved(&self, tile: &Tile) -> (solved: bool)
        requires
            self.wf(),
            tile.within(self.state().size),
        ensures
            solved == self.state().is_solved(*tile),
    {
        proof {
            self.lemma_solved_cell(*tile);
        }
        self.good_clues[tile.row][tile.col].is_some()
    }

    /// How the stored grid of solved cells is seen through the view.
    proof fn lemma_solved_cell(&self, t: Tile)
        requires
            self.wf(),
            t.within(self.state().size),
        ensures
            t.row < self.good_clues.len(),
            t.col < self.good_clues[t.row as int].len(),
            self.state().solved[t.row as int][t.col as int] == self.good_clues[t.row as int][t.col as int].deep_view(),
    {
        assert(self.state().solved[t.row as int] == self.good_clues[t.row as int].deep_view());
    }

    /// How the stored grid of votes is seen through the view.
    proof fn lemma_votes_cell(&self, t: Tile)
        requires
            self.wf(),
            t.within(self.state().size),
        ensures
            t.row < self.votes.len(),
            t.col < self.votes[t.row as int].len(),
            self.state().votes_at(t) == self.votes[t.row as int][t.col as int]@,
    {
        assert(self.state().votes[t.row as int] == self.votes[t.row as int].deep_view());
        lemma_voters_deep_view(self.votes[t.row as int][t.col as int]);
    }

    /// Lets `player` perform `action`.
    ///
    /// A clue may be given while none is in play, by a player who holds a
    /// cell. While a clue is in play, everybody but its owner may vote for
    /// open cells and may tap one. A tap ends the round: all votes are
    /// cleared, the owner takes the next cell of the deck if there is one,
    /// and the clue goes to the tapped cell if the guess was right and to the
    /// failed clues if not. A refused action changes nothing at all.
    pub fn do_action(&mut self, player: PlayerId, action: &Action) -> (outcome: Result<(), ActionError>)
        requires
            old(self).wf(),
            action.fits(old(self).state().size),
        ensures
            match old(self).state().step(player, *action) {
                Ok(next) => outcome is Ok && final(self).state() == next && final(self).wf(),
                Err(e) => outcome == Err::<(), ActionError>(e) && *final(self) == *old(self),
            },
    {
        proof {
            if old(self).state().step(player, *action) is Ok {
                lemma_step_keeps_inv(old(self).state(), player, *action);
            }
        }
        match action {
            Action::GiveClue { clue } => {
                if self.current_clue.is_some() {
                    return Err(ActionError::ClueAlreadyActive);
                }
                let player_tile = match self.held_tile(player) {
                    Some(tile) => tile,
                    None => {
                        return Err(ActionError::NoSecretToClue);
                    },
                };
                self.current_clue = Some(
                    Clue {
                        player,
                        tile: Some(player_tile),
                        clue: clue.clone(),
                        guess: None,
                        guesser: None,
                    },
                );
                Ok(())
            },
            Action::SetVote { tile, vote } => {
                if self.is_solved(tile) {
                    return Err(ActionError::TileAlreadySolved);
                }
                match &self.current_clue {
                    Some(clue) => {
                        if clue.player == player {
                            return Err(ActionError::VoteOnOwnClue);
                        }
                    },
                    None => {
                        return Err(ActionError::NoActiveClue);
                    },
                }
                proof {
                    self.lemma_votes_cell(*tile);
                }
                let ghost before = self.votes;
                toggle(&mut self.votes[tile.row][tile.col], player, *vote);
                proof {
                    lemma_cell_replaced(before, self.votes, *tile);
                    lemma_voters_deep_view(self.votes[tile.row as int][tile.col as int]);
                    assert(self.votes.deep_view() == with_cell(
                        before.deep_view(),
                        *tile,
                        toggled(old(self).state().votes_at(*tile), player, *vote),
                    ));
                }
                Ok(())
            },
            Action::TapTile { tile } => {
                let owner = match &self.current_clue {
                    Some(clue) => clue.player,
                    None => {
                        return Err(ActionError::NoActiveClue);
                    },
                };
                if self.is_solved(tile) {
                    return Err(ActionError::TileAlreadySolved);
                }
                if owner == player {
                    return Err(ActionError::GuessOnOwnClue);
                }
                proof {
                    self.lemma_solved_cell(*tile);
                }
                let mut current_clue = match self.current_clue.take() {
                    Some(clue) => clue,
                    None => {
                        return Err(ActionError::NoActiveClue);
                    },
                };
                clear_votes(&mut self.votes);
                proof {
                    lemma_emptied_grid(old(self).state().votes, self.size);
                }
                let new_tile = self.tiles.pop();
                match self.get_player_tile(&owner) {
                    Ok(slot) => {
                        *slot = new_tile;
                    },
                    Err(_) => {},
                }
                current_clue.guess = Some(*tile);
                current_clue.guesser = Some(player);
                let correct = match current_clue.tile {
                    Some(secret) => secret == *tile,
                    None => false,
                };
                if correct {
                    let ghost before = self.good_clues;
                    self.good_clues[tile.row][tile.col] = Some(current_clue);
                    proof {
                        lemma_cell_replaced(before, self.good_clues, *tile);
                    }
                } else {
                    let ghost before = self.bad_clues;
                    self.bad_clues.push(current_clue);
                    proof {
                        assert(self.bad_clues.deep_view() =~= before.deep_view().push(
                            current_clue@,
                        ));
                    }
                }
                proof {
                    let next = old(self).state().tap_tile(player, *tile).unwrap();
                    assert(self.state().deck == next.deck);
                    assert(self.state().player_tiles == next.player_tiles);
                    assert(self.state().votes == next.votes);
                    assert(self.state().solved == next.solved);
                    assert(self.state().failed == next.failed);
                }
                Ok(())
            },
        }
    }

    /// The grid's dimensions.
    pub fn size(&self) -> (size: &Tile)
        ensures
            *size == self.state().size,
    {
        &self.size
    }

    /// The labels: those of the rows first, then those of the columns.
    pub fn labels(&self) -> (labels: &Vec<String>)
        ensures
            labels.deep_view() == self.state().labels,
    {
        &self.labels
    }

    /// The cell each seat holds, by seat number.
    pub fn player_tiles(&self) -> (hands: &Vec<Option<Tile>>)
        ensures
            hands@ == self.state().player_tiles,
    {
        &self.player_tiles
    }

    /// The clue in play, if any.
    pub fn current_clue(&self) -> (clue: &Option<Clue>)
        ensures
            clue.deep_view() == self.state().current_clue,
    {
        &self.current_clue
    }

    /// The deck; its last cell is handed out next.
    pub fn deck(&self) -> (deck: &Vec<Tile>)
        ensures
            deck@ == self.state().deck,
    {
        &self.tiles
    }

    /// Who proposes each cell, by row, then column.
    pub fn votes(&self) -> (votes: &Vec<Vec<Vec<PlayerId>>>)
        ensures
            votes.deep_view() == self.state().votes,
    {
        &self.votes
    }

    /// The clue that solved each cell, by row, then column.
    pub fn good_clues(&self) -> (solved: &Vec<Vec<Option<Clue>>>)
        ensures
            solved.deep_view() == self.state().solved,
    {
        &self.good_clues
    }

    /// The clues that were guessed wrongly, oldest first.
    pub fn bad_clues(&self) -> (failed: &Vec<Clue>)
        ensures
            failed.deep_view() == self.state().failed,
    {
        &self.bad_clues
    }

    /// The seats, in order.
    pub fn players(&self) -> (seats: Vec<PlayerId>)
        ensures
            seats@ == self.state().players,
    {
        let mut seats: Vec<PlayerId> = Vec::new();
        let mut i: usize = 0;
        while i < self.players.len()
            invariant
                i <= self.players.len(),
                seats@ == self.players@.take(i as int),
            decreases self.players.len() - i,
        {
            seats.push(self.players[i]);
            i += 1;
            assert(self.players@.take(i as int) == self.players@.take(i - 1).push(self.players@[i - 1]));
        }
        assert(self.players@.take(i as int) == self.players@);
        seats
    }

    /// The seats that hold a cell, in seat order.
    fn players_with_tiles(&self) -> (seats: Vec<PlayerId>)
        ensures
            seats@ == self.state().players.filter(holds_tile(self.state())),
    {
        let mut seats: Vec<PlayerId> = Vec::new();
        let mut i: usize = 0;
        proof {
            reveal(Seq::filter);
        }
        while i < self.players.len()
            invariant
                i <= self.players.len(),
                seats@ == self.players@.take(i as int).filter(holds_tile(self.state())),
            decreases self.players.len() - i,
        {
            let seat = self.players[i];
            proof {
                let upto = self.players@.take(i + 1);
                let keep = holds_tile(self.state());
                assert(upto.drop_last() == self.players@.take(i as int));
                assert(upto.last() == seat);
                assert(keep(seat) == (self.state().tile_of(seat) is Some));
                reveal(Seq::filter);
                assert(upto.filter(keep) == if keep(seat) {
                    upto.drop_last().filter(keep).push(seat)
                } else {
                    upto.drop_last().filter(keep)
                });
            }
            if self.held_tile(seat).is_some() {
                seats.push(seat);
            }
            i += 1;
        }
        assert(self.players@.take(i as int) == self.players@);
        seats
    }

    /// The wrongly guessed clues as everybody may see them.
    fn shown_bad_clues(&self) -> (shown: Vec<Clue>)
        ensures
            shown.deep_view() == shown_failed(self.state().failed, self.state().game_over()),
    {
        let over = self.game_over();
        let mut shown: Vec<Clue> = Vec::new();
        let mut i: usize = 0;
        while i < self.bad_clues.len()
            invariant
                i <= self.bad_clues.len(),
                shown.len() == i,
                forall|k: int|
                    0 <= k < i ==> (#[trigger] shown[k])@ == if over {
                        self.bad_clues[k]@
                    } else {
                        self.bad_clues[k]@.hidden()
                    },
            decreases self.bad_clues.len() - i,
        {
            let copy = if over {
                self.bad_clues[i].clone()
            } else {
                self.bad_clues[i].hide_tile()
            };
            shown.push(copy);
            i += 1;
        }
        assert(shown.deep_view() =~= shown_failed(self.state().failed, self.state().game_over()));
        shown
    }

    /// What `player` is shown of the game; `None` stands for a spectator.
    ///
    /// Everybody sees the labels, the seats, who still holds a cell, how many
    /// cells the deck has, the votes and the solved cells. A player sees their
    /// own cell, and the answer of their own clue while it is in play. The
    /// answers of the failed clues are blanked until the game is over.
    pub fn view<'a>(&'a self, player: Option<PlayerId>) -> (shown: crate::snapshot::View<'a>)
        ensures
            shown@ == project(self.state(), player),
    {
        let current_clue = match &self.current_clue {
            None => None,
            Some(clue) => {
                let own = match player {
                    Some(p) => clue.player == p,
                    None => false,
                };
                if own {
                    Some(clue.clone())
                } else {
                    Some(clue.hide_tile())
                }
            },
        };
        let players_with_tiles = self.players_with_tiles();
        let player_tile = match player {
            Some(p) => self.held_tile(p),
            None => None,
        };
        let bad_clues = self.shown_bad_clues();
        crate::snapshot::View {
            size: &self.size,
            labels: &self.labels,
            players: &self.players,
            players_with_tiles,
            player_tile,
            current_clue,
            tiles_remaining: self.tiles.len(),
            votes: &self.votes,
            good_clues: &self.good_clues,
            bad_clues,
        }
    }

    /// Whether the deck is empty and nobody holds a cell.
    pub fn game_over(&self) -> (over: bool)
        ensures
            over == self.state().game_over(),
    {
        if self.tiles.len() != 0 {
            return false;
        }
        let mut i: usize = 0;
        while i < self.player_tiles.len()
            invariant
                i <= self.player_tiles.len(),
                forall|k: int| 0 <= k < i ==> #[trigger] self.player_tiles@[k] is None,
            decreases self.player_tiles.len() - i,
        {
            if self.player_tiles[i].is_some() {
                return false;
            }
            i += 1;
        }
        true
    }
}

/// What an untouched cell of a grid holds.
trait Blank: Sized {
    /// Whether the value is the untouched one.
    spec fn is_blank(&self) -> bool;

    /// The untouched value.
    fn blank() -> (cell: Self)
        ensures
            cell.is_blank(),
    ;
}

impl Blank for Vec<PlayerId> {
    spec fn is_blank(&self) -> bool {
        self@.len() == 0
    }

    fn blank() -> (cell: Self) {
        Vec::new()
    }
}

impl Blank for Option<Clue> {
    spec fn is_blank(&self) -> bool {
        *self is None
    }

    fn blank() -> (cell: Self) {
        None
    }
}

/// A grid of the given dimensions with every cell untouched.
fn blank_grid<T: Blank>(size: &Tile) -> (grid: Vec<Vec<T>>)
    ensures
        grid.len() == size.row,
        forall|r: int| 0 <= r < grid.len() ==> (#[trigger] grid[r]).len() == size.col,
        forall|r: int, c: int|
            0 <= r < size.row && 0 <= c < size.col ==> (#[trigger] grid[r][c]).is_blank(),
{
    let mut grid: Vec<Vec<T>> = Vec::new();
    let mut row: usize = 0;
    while row < size.row
        invariant
            row <= size.row,
            grid.len() == row,
            forall|r: int| 0 <= r < grid.len() ==> (#[trigger] grid[r]).len() == size.col,
            forall|r: int, c: int|
                0 <= r < row && 0 <= c < size.col ==> (#[trigger] grid[r][c]).is_blank(),
        decreases size.row - row,
    {
        let mut cells: Vec<T> = Vec::new();
        let mut col: usize = 0;
        while col < size.col
            invariant
                col <= size.col,
                cells.len() == col,
                forall|c: int| 0 <= c < col ==> (#[trigger] cells[c]).is_blank(),
            decreases size.col - col,
        {
            cells.push(T::blank());
            col += 1;
        }
        grid.push(cells);
        row += 1;
    }
    grid
}

/// A grid of empty voter lists is seen as one.
proof fn lemma_blank_votes(grid: Vec<Vec<Vec<PlayerId>>>, size: Tile)
    requires
        grid.len() == size.row,
        forall|r: int| 0 <= r < grid.len() ==> (#[trigger] grid[r]).len() == size.col,
        forall|r: int, c: int|
            0 <= r < size.row && 0 <= c < size.col ==> (#[trigger] grid[r][c]).is_blank(),
    ensures
        grid.deep_view() == uniform_grid(size, Seq::<PlayerId>::empty()),
{
    let got = grid.deep_view();
    let want = uniform_grid(size, Seq::<PlayerId>::empty());
    assert forall|r: int| 0 <= r < got.len() implies got[r] == want[r] by {
        assert(got[r] == grid[r].deep_view());
        assert forall|c: int| 0 <= c < got[r].len() implies got[r][c] == want[r][c] by {
            assert(grid[r][c].is_blank());
            assert(grid[r][c].deep_view() =~= Seq::<PlayerId>::empty());
        }
        assert(got[r] =~= want[r]);
    }
    assert(got =~= want);
}

/// A grid of unsolved cells is seen as one.
proof fn lemma_blank_solved(grid: Vec<Vec<Option<Clue>>>, size: Tile)
    requires
        grid.len() == size.row,
        forall|r: int| 0 <= r < grid.len() ==> (#[trigger] grid[r]).len() == size.col,
        forall|r: int, c: int|
            0 <= r < size.row && 0 <= c < size.col ==> (#[trigger] grid[r][c]).is_blank(),
    ensures
        grid.deep_view() == uniform_grid(size, None::<crate::clue::ClueRecord>),
{
    let got = grid.deep_view();
    let want = uniform_grid(size, None::<crate::clue::ClueRecord>);
    assert forall|r: int| 0 <= r < got.len() implies got[r] == want[r] by {
        assert(got[r] == grid[r].deep_view());
        assert forall|c: int| 0 <= c < got[r].len() implies got[r][c] == want[r][c] by {
            assert(grid[r][c].is_blank());
        }
        assert(got[r] =~= want[r]);
    }
    assert(got =~= want);
}

/// Replacing one cell replaces that cell in the view and no other.
proof fn lemma_cell_replaced<T: DeepView>(before: Vec<Vec<T>>, after: Vec<Vec<T>>, t: Tile)
    requires
        t.row < before.len(),
        t.col < before[t.row as int].len(),
        after@ == before@.update(t.row as int, after[t.row as int]),
        after[t.row as int]@ == before[t.row as int]@.update(
            t.col as int,
            after[t.row as int][t.col as int],
        ),
    ensures
        after.deep_view() == with_cell(
            before.deep_view(),
            t,
            after[t.row as int][t.col as int].deep_view(),
        ),
{
    let target = with_cell(before.deep_view(), t, after[t.row as int][t.col as int].deep_view());
    let got = after.deep_view();
    assert(got.len() == target.len());
    assert forall|r: int| 0 <= r < got.len() implies got[r] == target[r] by {
        assert(got[r] == after[r].deep_view());
        assert(before.deep_view()[r] == before[r].deep_view());
        if r == t.row {
            assert(got[r].len() == target[r].len());
            assert forall|c: int| 0 <= c < got[r].len() implies got[r][c] == target[r][c] by {
                assert(got[r][c] == after[r][c].deep_view());
                if c != t.col {
                    assert(after[r][c] == before[r][c]);
                    assert(before[r].deep_view()[c] == before[r][c].deep_view());
                }
            }
            assert(got[r] =~= target[r]);
        } else {
            assert(after[r] == before[r]);
        }
    }
    assert(got =~= target);
}

} // verus!
