use vstd::prelude::*;
use rand::seq::SliceRandom;
use crate::tile::Tile;

verus! {

/// Whether `picked` lists items of `pool` taken at `picked.len()` different
/// positions, in any order.
pub open spec fn is_draw_from(picked: Seq<Seq<char>>, pool: Seq<Seq<char>>) -> bool {
    exists|at: Seq<int>| is_draw_at(picked, pool, at)
}

/// Whether `picked[i]` is `pool[at[i]]` for every `i`, with no position used twice.
pub open spec fn is_draw_at(picked: Seq<Seq<char>>, pool: Seq<Seq<char>>, at: Seq<int>) -> bool {
    &&& at.len() == picked.len()
    &&& at.no_duplicates()
    &&& forall|i: int|
        0 <= i < at.len() ==> 0 <= #[trigger] at[i] < pool.len() && picked[i] == pool[at[i]]
}

/// Puts the cells in a random order.
///
/// Calls `rand::seq::SliceRandom::shuffle` with the thread's generator. The
/// contract claims what the shuffle is by construction, a series of swaps:
/// afterwards the pile holds the same cells as before, each as often as
/// before. Nothing is claimed about the order. The generator panics if the
/// operating system cannot seed it, which no argument can prevent.
#[verifier::external_body]
pub(crate) fn shuffle_tiles(tiles: &mut Vec<Tile>)
    ensures
        final(tiles)@.to_multiset() == old(tiles)@.to_multiset(),
{
    tiles.shuffle(&mut rand::thread_rng());
}

/// Draws `amount` words from the pool at random, or all of them if it holds fewer.
///
/// Calls `rand::seq::SliceRandom::choose_multiple` with the thread's
/// generator and copies what the iterator yields. The contract claims what
/// its documentation says: the result has `min(amount, pool.len())` items,
/// taken from different positions of the pool. Nothing is claimed about which
/// positions, nor about their order. The generator panics if the operating
/// system cannot seed it, which no argument can prevent.
#[verifier::external_body]
pub(crate) fn choose_words(pool: &Vec<String>, amount: usize) -> (picked: Vec<String>)
    ensures
        picked.len() == if amount <= pool.len() { amount } else { pool.len() },
        is_draw_from(picked.deep_view(), pool.deep_view()),
{
    pool.choose_multiple(&mut rand::thread_rng(), amount).map(|w| w.clone()).collect()
}

} // verus!
