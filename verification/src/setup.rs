use vstd::prelude::*;
use vstd::arithmetic::div_mod::lemma_fundamental_div_mod_converse;
use crate::ids::PlayerId;
use crate::state::{GameState, uniform_grid};
use crate::tile::Tile;
use crate::random::{is_draw_at, is_draw_from};

verus! {

/// Every cell of the grid, row by row.
pub open spec fn grid_tiles(size: Tile) -> Seq<Tile> {
    Seq::new(
        (size.row * size.col) as nat,
        |k: int| Tile { row: (k / size.col as int) as usize, col: (k % size.col as int) as usize },
    )
}

/// Whether `tiles` holds every cell of the grid exactly once, in any order.
pub open spec fn is_grid_permutation(tiles: Seq<Tile>, size: Tile) -> bool {
    &&& tiles.no_duplicates()
    &&& forall|k: int| 0 <= k < tiles.len() ==> (#[trigger] tiles[k]).within(size)
    &&& forall|t: Tile| #[trigger] t.within(size) ==> tiles.contains(t)
}

/// Seats numbered from zero.
pub open spec fn seats(n: nat) -> Seq<PlayerId> {
    Seq::new(n, |i: int| PlayerId(i as u32))
}

/// The game right after setup: each seat in turn takes the last cell of the
/// shuffled pile while there is one, and the rest is the deck.
pub open spec fn dealt(size: Tile, labels: Seq<Seq<char>>, shuffled: Seq<Tile>, n: nat) -> GameState {
    let m = shuffled.len();
    GameState {
        size,
        labels,
        players: seats(n),
        player_tiles: Seq::new(
            n,
            |i: int|
                if i < m {
                    Some(shuffled[m - 1 - i])
                } else {
                    None
                },
        ),
        deck: if n <= m {
            shuffled.take(m - n)
        } else {
            Seq::empty()
        },
        current_clue: None,
        votes: uniform_grid(size, Seq::empty()),
        solved: uniform_grid(size, None),
        failed: Seq::empty(),
    }
}

/// Row `r`, column `c` is cell number `r * cols + c`.
pub proof fn lemma_cell_number(size: Tile, r: int, c: int)
    requires
        0 <= r < size.row,
        0 <= c < size.col,
    ensures
        0 <= r * size.col + c < size.row * size.col,
        (r * size.col + c) / (size.col as int) == r,
        (r * size.col + c) % (size.col as int) == c,
{
    let cols = size.col as int;
    let rows = size.row as int;
    lemma_fundamental_div_mod_converse(r * cols + c, cols, r, c);
    assert(r * cols + c < rows * cols) by (nonlinear_arith)
        requires
            0 <= r < rows,
            0 <= c < cols,
    ;
    assert(0 <= r * cols + c) by (nonlinear_arith)
        requires
            0 <= r,
            0 <= c,
            0 < cols,
    ;
}

/// Cell number `k` lies on the grid, in row `k / cols` and column `k % cols`.
pub proof fn lemma_numbered_cell(size: Tile, k: int)
    requires
        0 <= k < size.row * size.col,
    ensures
        0 < size.col,
        0 <= k / (size.col as int) < size.row,
        0 <= k % (size.col as int) < size.col,
        k == (k / (size.col as int)) * size.col + k % (size.col as int),
{
    let cols = size.col as int;
    let rows = size.row as int;
    assert(cols > 0) by (nonlinear_arith)
        requires
            0 <= k < rows * cols,
            0 <= cols,
    ;
    vstd::arithmetic::div_mod::lemma_fundamental_div_mod(k, cols);
    vstd::arithmetic::div_mod::lemma_mod_bound(k, cols);
    let q = k / cols;
    assert(cols * q + k % cols == k);
    assert(q >= 0 && q < rows) by (nonlinear_arith)
        requires
            cols * q + k % cols == k,
            0 <= k % cols < cols,
            0 <= k < rows * cols,
    ;
    assert(q * cols == cols * q) by (nonlinear_arith);
}

/// The cells listed row by row are every cell of the grid exactly once.
pub proof fn lemma_grid_tiles_permutation(size: Tile)
    ensures
        is_grid_permutation(grid_tiles(size), size),
        grid_tiles(size).len() == size.row * size.col,
{
    let g = grid_tiles(size);
    assert forall|k: int| 0 <= k < g.len() implies (#[trigger] g[k]).within(size) by {
        lemma_numbered_cell(size, k);
    }
    assert forall|i: int, j: int| 0 <= i < g.len() && 0 <= j < g.len() && i != j implies g[i]
        != g[j] by {
        lemma_numbered_cell(size, i);
        lemma_numbered_cell(size, j);
    }
    assert forall|t: Tile| #[trigger] t.within(size) implies g.contains(t) by {
        lemma_cell_number(size, t.row as int, t.col as int);
        let k = t.row * size.col + t.col;
        assert(g[k] == t);
    }
}

/// Setup from a shuffled grid gives a sound game in which the deck and the
/// hands share out the whole grid and nothing is solved.
pub proof fn lemma_dealt_is_sound(size: Tile, labels: Seq<Seq<char>>, shuffled: Seq<Tile>, n: nat)
    requires
        is_grid_permutation(shuffled, size),
        labels.len() == size.row + size.col,
        n <= u32::MAX,
    ensures
        dealt(size, labels, shuffled, n).inv(),
        dealt(size, labels, shuffled, n).is_partition(),
        forall|t: Tile| t.within(size) ==> !dealt(size, labels, shuffled, n).is_solved(t),
{
    let s = dealt(size, labels, shuffled, n);
    let m = shuffled.len() as int;
    assert forall|t: Tile| t.within(size) implies !s.is_solved(t) by {}
    assert forall|k: int| 0 <= k < s.deck.len() implies (#[trigger] s.deck[k]).within(s.size)
        && !s.is_solved(s.deck[k]) by {
        assert(s.deck[k] == shuffled[k]);
    }
    assert forall|i: int| 0 <= i < s.player_tiles.len() && (#[trigger] s.player_tiles[i]) is Some implies ({
        let t = s.player_tiles[i].unwrap();
        t.within(s.size) && !s.deck.contains(t) && !s.is_solved(t)
    }) by {
        let t = s.player_tiles[i].unwrap();
        assert(t == shuffled[m - 1 - i]);
        if s.deck.contains(t) {
            let k = s.deck.index_of(t);
            assert(shuffled[k] == t);
        }
    }
    assert(s.tiles_disjoint());
    assert forall|t: Tile| #[trigger] t.within(s.size) implies s.places(t) == 1 by {
        let k = shuffled.index_of(t);
        assert(shuffled[k] == t);
        if n <= m && k < m - n {
            assert(s.deck[k] == t);
        } else {
            let i = m - 1 - k;
            assert(s.player_tiles[i] == Some(t));
            if s.deck.contains(t) {
                let d = s.deck.index_of(t);
                assert(shuffled[d] == t);
            }
        }
        if s.is_held(t) {
            let i = choose|i: int| 0 <= i < s.player_tiles.len() && #[trigger] s.player_tiles[i] == Some(t);
            assert(shuffled[m - 1 - i] == t);
            if s.deck.contains(t) {
                let d = s.deck.index_of(t);
                assert(shuffled[d] == t);
            }
        }
    }
    assert forall|t: Tile| #[trigger] t.within(s.size) implies s.votes_at(t).no_duplicates() && (
    s.is_solved(t) ==> s.votes_at(t).len() == 0) by {}
}

/// Whether the game is what setup makes for some order of the shuffled grid.
pub open spec fn is_fresh(s: GameState, size: Tile, n: nat) -> bool {
    &&& s.labels.len() == size.row + size.col
    &&& exists|pile: Seq<Tile>| #[trigger]
        is_grid_permutation(pile, size) && s == dealt(size, s.labels, pile, n)
}

/// Right after setup the deck and the hands share out the whole grid, every
/// cell once and none left out, and nothing is solved. The first seats hold
/// a cell each, as far as the grid has cells; the deck has the rest.
pub proof fn lemma_setup_is_partition(s: GameState, size: Tile, n: nat)
    requires
        is_fresh(s, size, n),
        n <= u32::MAX,
    ensures
        s.inv(),
        s.is_partition(),
        s.size == size,
        s.players == seats(n),
        s.player_tiles.len() == n,
        forall|t: Tile| t.within(size) ==> !s.is_solved(t) && s.votes_at(t).len() == 0,
        forall|i: int| 0 <= i < n ==> ((#[trigger] s.player_tiles[i]) is Some <==> i < size.row * size.col),
        s.deck.len() == if n <= size.row * size.col {
            size.row * size.col - n
        } else {
            0
        },
        s.current_clue is None,
        s.failed.len() == 0,
{
    let pile = choose|pile: Seq<Tile>| #[trigger]
        is_grid_permutation(pile, size) && s == dealt(size, s.labels, pile, n);
    lemma_dealt_is_sound(size, s.labels, pile, n);
    lemma_grid_permutation_len(pile, size);
}

/// A pile with the same cells as a permutation of the grid is one too.
pub proof fn lemma_reordered_grid(a: Seq<Tile>, b: Seq<Tile>, size: Tile)
    requires
        is_grid_permutation(a, size),
        a.to_multiset() == b.to_multiset(),
    ensures
        is_grid_permutation(b, size),
        b.len() == a.len(),
{
    a.lemma_multiset_has_no_duplicates();
    b.lemma_multiset_has_no_duplicates_conv();
    vstd::seq_lib::to_multiset_len(a);
    vstd::seq_lib::to_multiset_len(b);
    assert forall|k: int| 0 <= k < b.len() implies (#[trigger] b[k]).within(size) by {
        let t = b[k];
        assert(b.contains(t));
        vstd::seq_lib::to_multiset_contains(b, t);
        vstd::seq_lib::to_multiset_contains(a, t);
        let j = a.index_of(t);
        assert(a[j] == t);
    }
    assert forall|t: Tile| #[trigger] t.within(size) implies b.contains(t) by {
        vstd::seq_lib::to_multiset_contains(b, t);
        vstd::seq_lib::to_multiset_contains(a, t);
    }
}

/// A permutation of the grid has as many cells as the grid.
pub proof fn lemma_grid_permutation_len(pile: Seq<Tile>, size: Tile)
    requires
        is_grid_permutation(pile, size),
    ensures
        pile.len() == size.row * size.col,
{
    let g = grid_tiles(size);
    lemma_grid_tiles_permutation(size);
    assert(pile.to_set() =~= g.to_set()) by {
        assert forall|t: Tile| pile.to_set().contains(t) <==> g.to_set().contains(t) by {
            if pile.contains(t) {
                let k = pile.index_of(t);
                assert(pile[k].within(size));
            }
            if g.contains(t) {
                let k = g.index_of(t);
                assert(g[k].within(size));
            }
        }
    }
    pile.unique_seq_to_set();
    g.unique_seq_to_set();
}

/// Words drawn from a pool without repeats are in the pool and do not repeat.
pub proof fn lemma_draw_is_distinct(picked: Seq<Seq<char>>, pool: Seq<Seq<char>>)
    requires
        is_draw_from(picked, pool),
        pool.no_duplicates(),
    ensures
        picked.no_duplicates(),
        forall|i: int| 0 <= i < picked.len() ==> pool.contains(#[trigger] picked[i]),
{
    let at = choose|at: Seq<int>| is_draw_at(picked, pool, at);
    assert forall|i: int| 0 <= i < picked.len() implies pool.contains(#[trigger] picked[i]) by {
        assert(pool[at[i]] == picked[i]);
    }
    assert forall|i: int, j: int| 0 <= i < picked.len() && 0 <= j < picked.len() && i != j implies picked[i]
        != picked[j] by {
        assert(at[i] != at[j]);
        assert(pool[at[i]] == picked[i]);
        assert(pool[at[j]] == picked[j]);
    }
}

/// Lists every cell of the grid, row by row.
pub fn all_tiles(size: &Tile) -> (tiles: Vec<Tile>)
    requires
        size.row * size.col <= usize::MAX,
    ensures
        tiles@ == grid_tiles(*size),
{
    let mut tiles: Vec<Tile> = Vec::new();
    let mut row: usize = 0;
    while row < size.row
        invariant
            row <= size.row,
            size.row * size.col <= usize::MAX,
            tiles.len() == row * size.col,
            forall|k: int| 0 <= k < tiles.len() ==> tiles[k] == grid_tiles(*size)[k],
        decreases size.row - row,
    {
        let mut col: usize = 0;
        while col < size.col
            invariant
                row < size.row,
                col <= size.col,
                size.row * size.col <= usize::MAX,
                tiles.len() == row * size.col + col,
                forall|k: int| 0 <= k < tiles.len() ==> tiles[k] == grid_tiles(*size)[k],
            decreases size.col - col,
        {
            proof {
                lemma_cell_number(*size, row as int, col as int);
            }
            tiles.push(Tile { row, col });
            col += 1;
        }
        row += 1;
        assert(tiles.len() == row * size.col) by (nonlinear_arith)
            requires
                tiles.len() == (row - 1) * size.col + size.col,
        ;
    }
    assert(tiles@ =~= grid_tiles(*size));
    tiles
}

} // verus!
