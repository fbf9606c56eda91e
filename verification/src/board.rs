use vstd::prelude::*;
use crate::ids::PlayerId;
use crate::state::{emptied, first_place, has_shape, toggled, uniform_grid};
use crate::tile::Tile;

verus! {

/// For a list of seats the deep view is the list itself.
pub proof fn lemma_voters_deep_view(voters: Vec<PlayerId>)
    ensures
        voters.deep_view() == voters@,
{
    assert(voters.deep_view() =~= voters@);
}

/// A voter has a first place in the list.
pub proof fn lemma_first_place(voters: Seq<PlayerId>, player: PlayerId)
    requires
        voters.contains(player),
    ensures
        0 <= first_place(voters, player) < voters.len(),
        voters[first_place(voters, player)] == player,
        forall|k: int| 0 <= k < first_place(voters, player) ==> voters[k] != player,
{
    voters.index_of_first_ensures(player);
    let at = voters.index_of_first(player).unwrap();
    assert(0 <= at < voters.len() && voters[at] == player && forall|k: int|
        0 <= k < at ==> voters[k] != player);
}

/// Where `player` first stands in `voters`, if at all.
pub fn position_of(voters: &Vec<PlayerId>, player: PlayerId) -> (found: Option<usize>)
    ensures
        match found {
            Some(at) => at < voters.len() && voters[at as int] == player && forall|k: int|
                0 <= k < at ==> voters[k] != player,
            None => !voters@.contains(player),
        },
{
    let mut i: usize = 0;
    while i < voters.len()
        invariant
            i <= voters.len(),
            forall|k: int| 0 <= k < i ==> voters[k] != player,
        decreases voters.len() - i,
    {
        if voters[i] == player {
            return Some(i);
        }
        i += 1;
    }
    None
}

/// Sets `player`'s vote in one cell's list of voters.
pub fn toggle(voters: &mut Vec<PlayerId>, player: PlayerId, vote: bool)
    ensures
        final(voters)@ == toggled(old(voters)@, player, vote),
{
    let found = position_of(voters, player);
    match found {
        Some(at) => {
            if !vote {
                proof {
                    assert(voters@.contains(player));
                    lemma_first_place(voters@, player);
                    let first = first_place(voters@, player);
                    assert(first == at) by {
                        if first < at {
                            assert(voters@[first] != player);
                        }
                        if at < first {
                            assert(voters@[at as int] != player);
                        }
                    }
                }
                voters.remove(at);
            }
        },
        None => {
            if vote {
                voters.push(player);
            }
        },
    }
}

/// Empties every cell's list of voters; the grid keeps its shape.
pub fn clear_votes(votes: &mut Vec<Vec<Vec<PlayerId>>>)
    ensures
        final(votes).deep_view() == emptied(old(votes).deep_view()),
{
    let ghost before = votes.deep_view();
    proof {
        assert forall|i: int| 0 <= i < votes.len() implies (#[trigger] votes[i]).len()
            == before[i].len() by {
            assert(before[i] == votes[i].deep_view());
        }
    }
    let mut r: usize = 0;
    while r < votes.len()
        invariant
            r <= votes.len(),
            votes.len() == before.len(),
            forall|i: int| 0 <= i < votes.len() ==> (#[trigger] votes[i]).len() == before[i].len(),
            forall|i: int, j: int|
                0 <= i < r && 0 <= j < before[i].len() ==> (#[trigger] votes[i][j]).len() == 0,
        decreases votes.len() - r,
    {
        let mut c: usize = 0;
        while c < votes[r].len()
            invariant
                r < votes.len(),
                c <= votes[r as int].len(),
                votes.len() == before.len(),
                forall|i: int| 0 <= i < votes.len() ==> (#[trigger] votes[i]).len() == before[i].len(),
                forall|i: int, j: int|
                    0 <= i < r && 0 <= j < before[i].len() ==> (#[trigger] votes[i][j]).len() == 0,
                forall|j: int| 0 <= j < c ==> (#[trigger] votes[r as int][j]).len() == 0,
            decreases votes[r as int].len() - c,
        {
            votes[r][c].clear();
            c += 1;
        }
        r += 1;
    }
    proof {
        let after = votes.deep_view();
        let blank = emptied(before);
        assert(after.len() == blank.len());
        assert forall|i: int| 0 <= i < after.len() implies after[i] == blank[i] by {
            assert(after[i] == votes[i].deep_view());
            assert(after[i].len() == blank[i].len());
            assert forall|j: int| 0 <= j < after[i].len() implies after[i][j] == blank[i][j] by {
                assert(after[i][j] == votes[i][j].deep_view());
                assert(votes[i][j].deep_view() =~= Seq::<PlayerId>::empty());
            }
            assert(after[i] =~= blank[i]);
        }
        assert(after =~= blank);
    }
}

/// Emptying a grid of the given dimensions leaves the empty grid of those dimensions.
pub proof fn lemma_emptied_grid(votes: Seq<Seq<Seq<PlayerId>>>, size: Tile)
    requires
        has_shape(votes, size),
    ensures
        emptied(votes) == uniform_grid(size, Seq::<PlayerId>::empty()),
{
    let got = emptied(votes);
    let want = uniform_grid(size, Seq::<PlayerId>::empty());
    assert forall|r: int| 0 <= r < got.len() implies got[r] == want[r] by {
        assert(got[r] =~= want[r]);
    }
    assert(got =~= want);
}

} // verus!
