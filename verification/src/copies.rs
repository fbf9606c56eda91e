use vstd::prelude::*;
use crate::clue::Clue;
use crate::ids::PlayerId;

verus! {

/// Copies a list of words.
pub fn clone_words(words: &Vec<String>) -> (copy: Vec<String>)
    ensures
        copy@ == words@,
{
    let mut copy: Vec<String> = Vec::new();
    let mut i: usize = 0;
    while i < words.len()
        invariant
            i <= words.len(),
            copy@ == words@.take(i as int),
        decreases words.len() - i,
    {
        copy.push(words[i].clone());
        i += 1;
        assert(words@.take(i as int) == words@.take(i - 1).push(words@[i - 1]));
    }
    assert(words@.take(i as int) == words@);
    copy
}

/// Copies a list of clues.
pub fn clone_clues(clues: &Vec<Clue>) -> (copy: Vec<Clue>)
    ensures
        copy@ == clues@,
{
    let mut copy: Vec<Clue> = Vec::new();
    let mut i: usize = 0;
    while i < clues.len()
        invariant
            i <= clues.len(),
            copy@ == clues@.take(i as int),
        decreases clues.len() - i,
    {
        copy.push(clues[i].clone());
        i += 1;
        assert(clues@.take(i as int) == clues@.take(i - 1).push(clues@[i - 1]));
    }
    assert(clues@.take(i as int) == clues@);
    copy
}

/// Copies the grid of votes.
pub fn clone_votes(votes: &Vec<Vec<Vec<PlayerId>>>) -> (copy: Vec<Vec<Vec<PlayerId>>>)
    ensures
        copy.deep_view() == votes.deep_view(),
{
    let mut copy: Vec<Vec<Vec<PlayerId>>> = Vec::new();
    let mut r: usize = 0;
    while r < votes.len()
        invariant
            r <= votes.len(),
            copy.len() == r,
            forall|i: int| 0 <= i < r ==> (#[trigger] copy[i]).deep_view() == votes[i].deep_view(),
        decreases votes.len() - r,
    {
        let mut row: Vec<Vec<PlayerId>> = Vec::new();
        let mut c: usize = 0;
        while c < votes[r].len()
            invariant
                r < votes.len(),
                c <= votes[r as int].len(),
                row.len() == c,
                forall|j: int| 0 <= j < c ==> (#[trigger] row[j])@ == votes[r as int][j]@,
            decreases votes[r as int].len() - c,
        {
            let mut cell: Vec<PlayerId> = Vec::new();
            let mut k: usize = 0;
            while k < votes[r][c].len()
                invariant
                    r < votes.len(),
                    c < votes[r as int].len(),
                    k <= votes[r as int][c as int].len(),
                    cell@ == votes[r as int][c as int]@.take(k as int),
                decreases votes[r as int][c as int].len() - k,
            {
                cell.push(votes[r][c][k]);
                k += 1;
                assert(votes[r as int][c as int]@.take(k as int) == votes[r as int][c as int]@.take(
                    k - 1,
                ).push(votes[r as int][c as int]@[k - 1]));
            }
            assert(votes[r as int][c as int]@.take(k as int) == votes[r as int][c as int]@);
            row.push(cell);
            c += 1;
        }
        proof {
            assert(row.deep_view() =~= votes[r as int].deep_view()) by {
                assert forall|j: int| 0 <= j < row.len() implies row.deep_view()[j]
                    == votes[r as int].deep_view()[j] by {
                    assert(row[j].deep_view() =~= row[j]@);
                    assert(votes[r as int][j].deep_view() =~= votes[r as int][j]@);
                }
            }
        }
        copy.push(row);
        r += 1;
    }
    assert(copy.deep_view() =~= votes.deep_view());
    copy
}

/// Copies the grid of solved cells.
pub fn clone_solved(solved: &Vec<Vec<Option<Clue>>>) -> (copy: Vec<Vec<Option<Clue>>>)
    ensures
        copy.deep_view() == solved.deep_view(),
{
    let mut copy: Vec<Vec<Option<Clue>>> = Vec::new();
    let mut r: usize = 0;
    while r < solved.len()
        invariant
            r <= solved.len(),
            copy.len() == r,
            forall|i: int| 0 <= i < r ==> (#[trigger] copy[i]).deep_view() == solved[i].deep_view(),
        decreases solved.len() - r,
    {
        let mut row: Vec<Option<Clue>> = Vec::new();
        let mut c: usize = 0;
        while c < solved[r].len()
            invariant
                r < solved.len(),
                c <= solved[r as int].len(),
                row.len() == c,
                forall|j: int| 0 <= j < c ==> (#[trigger] row[j]) == solved[r as int][j],
            decreases solved[r as int].len() - c,
        {
            let cell = match &solved[r][c] {
                Some(clue) => Some(clue.clone()),
                None => None,
            };
            row.push(cell);
            c += 1;
        }
        assert(row.deep_view() =~= solved[r as int].deep_view());
        copy.push(row);
        r += 1;
    }
    assert(copy.deep_view() =~= solved.deep_view());
    copy
}

} // verus!
