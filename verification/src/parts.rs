use vstd::prelude::*;
use crate::clue::Clue;
use crate::ids::PlayerId;
use crate::state::{GameState, has_shape};
use crate::tile::Tile;

verus! {

/// The stored form of a game, as it is written out and read back.
///
/// Anybody can put one together, so nothing is known of it until
/// [`GameParts::is_sound`] has looked at it.
#[derive(Debug)]
pub struct GameParts {
    pub size: Tile,
    pub labels: Vec<String>,
    pub players: Vec<PlayerId>,
    pub player_tiles: Vec<Option<Tile>>,
    pub current_clue: Option<Clue>,
    pub tiles: Vec<Tile>,
    pub votes: Vec<Vec<Vec<PlayerId>>>,
    pub good_clues: Vec<Vec<Option<Clue>>>,
    pub bad_clues: Vec<Clue>,
}

impl GameParts {
    /// The mathematical content of the stored game.
    pub open spec fn state(&self) -> GameState {
        GameState {
            size: self.size,
            labels: self.labels.deep_view(),
            players: self.players@,
            player_tiles: self.player_tiles@,
            deck: self.tiles@,
            current_clue: self.current_clue.deep_view(),
            votes: self.votes.deep_view(),
            solved: self.good_clues.deep_view(),
            failed: self.bad_clues.deep_view(),
        }
    }
}

/// Tests whether seat `i` is player `i` and there are `hands` seats.
pub fn seats_are_in_order(players: &Vec<PlayerId>, hands: usize) -> (ok: bool)
    ensures
        ok == (players.len() == hands && players.len() <= u32::MAX && forall|i: int|
            0 <= i < players.len() ==> (#[trigger] players[i]).0 == i),
{
    if players.len() != hands || players.len() > u32::MAX as usize {
        return false;
    }
    let mut i: usize = 0;
    while i < players.len()
        invariant
            i <= players.len(),
            players.len() <= u32::MAX,
            forall|k: int| 0 <= k < i ==> (#[trigger] players[k]).0 == k,
        decreases players.len() - i,
    {
        if players[i].0 as usize != i {
            return false;
        }
        i += 1;
    }
    true
}

/// Tests whether the grid has exactly the given dimensions.
pub fn grid_has_shape<T: DeepView>(grid: &Vec<Vec<T>>, size: &Tile) -> (ok: bool)
    ensures
        ok == has_shape(grid.deep_view(), *size),
        ok ==> grid.len() == size.row && forall|r: int|
            0 <= r < grid.len() ==> (#[trigger] grid[r]).len() == size.col,
{
    if grid.len() != size.row {
        return false;
    }
    let mut r: usize = 0;
    while r < grid.len()
        invariant
            r <= grid.len(),
            grid.len() == size.row,
            forall|k: int| 0 <= k < r ==> (#[trigger] grid[k]).len() == size.col,
        decreases grid.len() - r,
    {
        if grid[r].len() != size.col {
            proof {
                assert(grid.deep_view()[r as int] == grid[r as int].deep_view());
                assert(grid.deep_view()[r as int].len() != size.col);
            }
            return false;
        }
        r += 1;
    }
    proof {
        assert forall|k: int| 0 <= k < grid.deep_view().len() implies (
        #[trigger] grid.deep_view()[k]).len() == size.col by {
            assert(grid.deep_view()[k] == grid[k].deep_view());
        }
    }
    true
}

/// Tests whether the list holds the cell.
pub fn holds_tile(tiles: &Vec<Tile>, t: &Tile) -> (found: bool)
    ensures
        found == tiles@.contains(*t),
{
    let mut k: usize = 0;
    while k < tiles.len()
        invariant
            k <= tiles.len(),
            forall|j: int| 0 <= j < k ==> tiles[j] != *t,
        decreases tiles.len() - k,
    {
        if tiles[k] == *t {
            return true;
        }
        k += 1;
    }
    false
}

/// Tests whether nobody is listed twice.
pub fn all_distinct(voters: &Vec<PlayerId>) -> (ok: bool)
    ensures
        ok == voters@.no_duplicates(),
{
    let mut k: usize = 0;
    while k < voters.len()
        invariant
            k <= voters.len(),
            forall|i: int, j: int| 0 <= i < j < k ==> voters[i] != voters[j],
        decreases voters.len() - k,
    {
        let mut j: usize = 0;
        while j < k
            invariant
                j <= k,
                k < voters.len(),
                forall|i: int| 0 <= i < j ==> voters[i] != voters[k as int],
            decreases k - j,
        {
            if voters[j] == voters[k] {
                return false;
            }
            j += 1;
        }
        k += 1;
    }
    true
}

/// Tests whether the clue solved the cell: it named the cell and was guessed right.
pub fn has_solved(clue: &Clue, t: &Tile) -> (ok: bool)
    ensures
        ok == (clue@.secret == Some(*t) && clue@.guess == Some(*t) && clue@.guesser is Some),
{
    let named = match clue.tile {
        Some(secret) => secret == *t,
        None => false,
    };
    let guessed = match clue.guess {
        Some(guess) => guess == *t,
        None => false,
    };
    named && guessed && clue.guesser.is_some()
}

/// Tests whether the clue was resolved by a wrong guess.
pub fn has_failed(clue: &Clue) -> (ok: bool)
    ensures
        ok == (clue@.secret is Some && clue@.guess is Some && clue@.guesser is Some
            && !clue@.is_correct()),
{
    match (clue.tile, clue.guess) {
        (Some(secret), Some(guess)) => secret != guess && clue.guesser.is_some(),
        _ => false,
    }
}

impl GameParts {
    /// How a stored cell of the solved grid is seen.
    proof fn lemma_solved_at(&self, t: Tile)
        requires
            has_shape(self.state().solved, self.size),
            t.within(self.size),
        ensures
            t.row < self.good_clues.len(),
            t.col < self.good_clues[t.row as int].len(),
            self.state().solved[t.row as int][t.col as int] == self.good_clues[t.row as int][t.col as int].deep_view(),
            self.state().is_solved(t) == (self.good_clues[t.row as int][t.col as int] is Some),
    {
        assert(self.state().solved[t.row as int] == self.good_clues[t.row as int].deep_view());
    }

    /// How a stored cell of the votes grid is seen.
    proof fn lemma_votes_at(&self, t: Tile)
        requires
            has_shape(self.state().votes, self.size),
            t.within(self.size),
        ensures
            t.row < self.votes.len(),
            t.col < self.votes[t.row as int].len(),
            self.state().votes_at(t) == self.votes[t.row as int][t.col as int]@,
    {
        assert(self.state().votes[t.row as int] == self.votes[t.row as int].deep_view());
        crate::board::lemma_voters_deep_view(self.votes[t.row as int][t.col as int]);
    }

    /// Tests whether the cell lies on the grid and is not solved.
    fn is_open(&self, t: &Tile) -> (ok: bool)
        requires
            has_shape(self.state().solved, self.size),
        ensures
            ok == (t.within(self.size) && !self.state().is_solved(*t)),
    {
        if !t.is_within(&self.size) {
            return false;
        }
        proof {
            self.lemma_solved_at(*t);
        }
        self.good_clues[t.row][t.col].is_none()
    }

    /// Tests whether the deck holds open cells only, each once.
    fn deck_is_clean(&self) -> (ok: bool)
        requires
            has_shape(self.state().solved, self.size),
        ensures
            ok == (self.tiles@.no_duplicates() && forall|k: int|
                0 <= k < self.tiles.len() ==> (#[trigger] self.tiles[k]).within(self.size)
                    && !self.state().is_solved(self.tiles[k])),
    {
        let mut k: usize = 0;
        while k < self.tiles.len()
            invariant
                k <= self.tiles.len(),
                has_shape(self.state().solved, self.size),
                forall|i: int|
                    0 <= i < k ==> (#[trigger] self.tiles[i]).within(self.size)
                        && !self.state().is_solved(self.tiles[i]),
                forall|i: int, j: int| 0 <= i < j < k ==> self.tiles[i] != self.tiles[j],
            decreases self.tiles.len() - k,
        {
            if !self.is_open(&self.tiles[k]) {
                return false;
            }
            let mut j: usize = 0;
            while j < k
                invariant
                    j <= k,
                    k < self.tiles.len(),
                    forall|i: int| 0 <= i < j ==> self.tiles[i] != self.tiles[k as int],
                decreases k - j,
            {
                if self.tiles[j] == self.tiles[k] {
                    return false;
                }
                j += 1;
            }
            k += 1;
        }
        true
    }

    /// Tests whether the hands hold open cells only, none of them in the
    /// deck and no two alike.
    fn hands_are_clean(&self) -> (ok: bool)
        requires
            has_shape(self.state().solved, self.size),
        ensures
            ok == ((forall|i: int|
                0 <= i < self.player_tiles.len() && (#[trigger] self.player_tiles[i]) is Some ==> {
                    let t = self.player_tiles[i].unwrap();
                    t.within(self.size) && !self.tiles@.contains(t) && !self.state().is_solved(t)
                }) && (forall|i: int, j: int|
                0 <= i < j < self.player_tiles.len() && (#[trigger] self.player_tiles[i]) is Some
                    ==> self.player_tiles[i] != #[trigger] self.player_tiles[j])),
    {
        let mut i: usize = 0;
        while i < self.player_tiles.len()
            invariant
                i <= self.player_tiles.len(),
                has_shape(self.state().solved, self.size),
                forall|k: int|
                    0 <= k < i && (#[trigger] self.player_tiles[k]) is Some ==> {
                        let t = self.player_tiles[k].unwrap();
                        t.within(self.size) && !self.tiles@.contains(t) && !self.state().is_solved(t)
                    },
                forall|a: int, b: int|
                    0 <= a < b < i && (#[trigger] self.player_tiles[a]) is Some ==> self.player_tiles[a]
                        != #[trigger] self.player_tiles[b],
            decreases self.player_tiles.len() - i,
        {
            match self.player_tiles[i] {
                Some(t) => {
                    if !self.is_open(&t) || holds_tile(&self.tiles, &t) {
                        return false;
                    }
                    let mut j: usize = 0;
                    while j < i
                        invariant
                            j <= i,
                            i < self.player_tiles.len(),
                            self.player_tiles[i as int] == Some(t),
                            forall|a: int| 0 <= a < j ==> self.player_tiles[a] != Some(t),
                        decreases i - j,
                    {
                        match self.player_tiles[j] {
                            Some(other) => {
                                if other == t {
                                    return false;
                                }
                            },
                            None => {},
                        }
                        j += 1;
                    }
                },
                None => {},
            }
            i += 1;
        }
        true
    }

    /// Tests whether the clue in play is unresolved and about its owner's cell.
    fn clue_is_consistent(&self) -> (ok: bool)
        ensures
            ok == self.state().clue_consistent(),
    {
        match &self.current_clue {
            None => true,
            Some(clue) => {
                if clue.guess.is_some() || clue.guesser.is_some() {
                    return false;
                }
                let seat = clue.player.0 as usize;
                let held = if seat < self.player_tiles.len() {
                    self.player_tiles[seat]
                } else {
                    None
                };
                match (clue.tile, held) {
                    (Some(secret), Some(in_hand)) => secret == in_hand,
                    _ => false,
                }
            },
        }
    }

    /// Tests whether nobody votes twice for a cell and no solved cell has votes.
    fn votes_are_consistent(&self) -> (ok: bool)
        requires
            has_shape(self.state().solved, self.size),
            has_shape(self.state().votes, self.size),
        ensures
            ok == (forall|t: Tile| #[trigger]
                t.within(self.size) ==> self.state().votes_at(t).no_duplicates() && (
                self.state().is_solved(t) ==> self.state().votes_at(t).len() == 0)),
    {
        let mut r: usize = 0;
        while r < self.size.row
            invariant
                r <= self.size.row,
                has_shape(self.state().solved, self.size),
                has_shape(self.state().votes, self.size),
                forall|t: Tile| #[trigger]
                    t.within(self.size) && t.row < r ==> self.state().votes_at(t).no_duplicates()
                        && (self.state().is_solved(t) ==> self.state().votes_at(t).len() == 0),
            decreases self.size.row - r,
        {
            let mut c: usize = 0;
            while c < self.size.col
                invariant
                    r < self.size.row,
                    c <= self.size.col,
                    has_shape(self.state().solved, self.size),
                    has_shape(self.state().votes, self.size),
                    forall|t: Tile| #[trigger]
                        t.within(self.size) && (t.row < r || (t.row == r && t.col < c))
                            ==> self.state().votes_at(t).no_duplicates() && (
                        self.state().is_solved(t) ==> self.state().votes_at(t).len() == 0),
                decreases self.size.col - c,
            {
                let ghost here = Tile { row: r, col: c };
                proof {
                    assert(here.within(self.size));
                    self.lemma_votes_at(here);
                    self.lemma_solved_at(here);
                }
                let voters = &self.votes[r][c];
                if !all_distinct(voters) {
                    return false;
                }
                if self.good_clues[r][c].is_some() && voters.len() != 0 {
                    return false;
                }
                c += 1;
            }
            r += 1;
        }
        true
    }

    /// Tests whether each solved cell carries the clue that solved it, and
    /// each failed clue was guessed wrongly.
    fn records_are_consistent(&self) -> (ok: bool)
        requires
            has_shape(self.state().solved, self.size),
        ensures
            ok == ((forall|t: Tile| #[trigger]
                t.within(self.size) && self.state().is_solved(t) ==> {
                    let record = self.state().solved[t.row as int][t.col as int].unwrap();
                    record.secret == Some(t) && record.guess == Some(t) && record.guesser is Some
                }) && (forall|k: int|
                0 <= k < self.state().failed.len() ==> {
                    let record = #[trigger] self.state().failed[k];
                    record.secret is Some && record.guess is Some && record.guesser is Some
                        && !record.is_correct()
                })),
    {
        let mut r: usize = 0;
        while r < self.size.row
            invariant
                r <= self.size.row,
                has_shape(self.state().solved, self.size),
                forall|t: Tile| #[trigger]
                    t.within(self.size) && t.row < r && self.state().is_solved(t) ==> {
                        let record = self.state().solved[t.row as int][t.col as int].unwrap();
                        record.secret == Some(t) && record.guess == Some(t) && record.guesser is Some
                    },
            decreases self.size.row - r,
        {
            let mut c: usize = 0;
            while c < self.size.col
                invariant
                    r < self.size.row,
                    c <= self.size.col,
                    has_shape(self.state().solved, self.size),
                    forall|t: Tile| #[trigger]
                        t.within(self.size) && (t.row < r || (t.row == r && t.col < c))
                            && self.state().is_solved(t) ==> {
                            let record = self.state().solved[t.row as int][t.col as int].unwrap();
                            record.secret == Some(t) && record.guess == Some(t) && record.guesser is Some
                        },
                decreases self.size.col - c,
            {
                let here = Tile { row: r, col: c };
                proof {
                    assert(here.within(self.size));
                    self.lemma_solved_at(here);
                }
                match &self.good_clues[r][c] {
                    Some(clue) => {
                        if !has_solved(clue, &here) {
                            return false;
                        }
                    },
                    None => {},
                }
                c += 1;
            }
            r += 1;
        }
        let mut k: usize = 0;
        while k < self.bad_clues.len()
            invariant
                k <= self.bad_clues.len(),
                forall|i: int|
                    0 <= i < k ==> {
                        let record = #[trigger] self.state().failed[i];
                        record.secret is Some && record.guess is Some && record.guesser is Some
                            && !record.is_correct()
                    },
            decreases self.bad_clues.len() - k,
        {
            proof {
                assert(self.state().failed[k as int] == self.bad_clues[k as int]@);
            }
            if !has_failed(&self.bad_clues[k]) {
                return false;
            }
            k += 1;
        }
        true
    }

    /// Tests whether the stored game is one that setup and the rules can lead to.
    pub fn is_sound(&self) -> (ok: bool)
        ensures
            ok == self.state().inv(),
    {
        let labels_fit = match self.size.row.checked_add(self.size.col) {
            Some(count) => self.labels.len() == count,
            None => false,
        };
        assert(self.state().labels.len() == self.labels.len());
        if !labels_fit {
            return false;
        }
        if !seats_are_in_order(&self.players, self.player_tiles.len()) {
            return false;
        }
        if !grid_has_shape(&self.votes, &self.size) || !grid_has_shape(&self.good_clues, &self.size) {
            return false;
        }
        self.deck_is_clean() && self.hands_are_clean() && self.clue_is_consistent()
            && self.votes_are_consistent() && self.records_are_consistent()
    }
}

} // verus!
