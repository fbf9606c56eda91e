use vstd::prelude::*;
use crate::tile::Tile;
use crate::copies::clone_words;

verus! {

/// A named list of words that games may draw their labels from.
#[derive(Debug, PartialEq, Eq)]
pub struct WordList {
    pub name: String,
    pub words: Vec<String>,
}

impl Clone for WordList {
    fn clone(&self) -> (copy: Self)
        ensures
            copy.name == self.name,
            copy.words@ == self.words@,
    {
        WordList { name: self.name.clone(), words: clone_words(&self.words) }
    }
}

impl WordList {
    /// Whether the list holds the word.
    pub open spec fn holds(self, w: Seq<char>) -> bool {
        self.words.deep_view().contains(w)
    }
}

/// Whether some list of the catalog bears the name.
pub open spec fn is_listed(catalog: Seq<WordList>, name: Seq<char>) -> bool {
    exists|j: int| 0 <= j < catalog.len() && (#[trigger] catalog[j]).name@ == name
}

/// Whether a list of the catalog that bears the name holds the word.
pub open spec fn in_named_list(catalog: Seq<WordList>, name: Seq<char>, w: Seq<char>) -> bool {
    exists|j: int| 0 <= j < catalog.len() && (#[trigger] catalog[j]).name@ == name && catalog[j].holds(w)
}

/// Whether a list that is switched on holds the word.
pub open spec fn in_enabled_list(lists: Seq<(String, bool)>, catalog: Seq<WordList>, w: Seq<char>) -> bool {
    exists|i: int| 0 <= i < lists.len() && (#[trigger] lists[i]).1 && in_named_list(catalog, lists[i].0@, w)
}

/// How a game is to be set up.
#[derive(Debug, PartialEq, Eq)]
pub struct Config {
    /// The grid's dimensions.
    pub size: Tile,
    /// The catalog's lists by name, each switched on or off.
    pub word_lists: Vec<(String, bool)>,
    /// Words of the players' own; always part of the pool.
    pub custom_words: Vec<String>,
}

impl Clone for Config {
    fn clone(&self) -> (copy: Self)
        ensures
            copy.size == self.size,
            copy.word_lists@ == self.word_lists@,
            copy.custom_words@ == self.custom_words@,
    {
        let mut word_lists: Vec<(String, bool)> = Vec::new();
        let mut i: usize = 0;
        while i < self.word_lists.len()
            invariant
                i <= self.word_lists.len(),
                word_lists@ == self.word_lists@.take(i as int),
            decreases self.word_lists.len() - i,
        {
            word_lists.push((self.word_lists[i].0.clone(), self.word_lists[i].1));
            i += 1;
            assert(self.word_lists@.take(i as int) == self.word_lists@.take(i - 1).push(
                self.word_lists@[i - 1],
            ));
        }
        assert(self.word_lists@.take(i as int) == self.word_lists@);
        Config { size: self.size, word_lists, custom_words: clone_words(&self.custom_words) }
    }
}

impl Config {
    /// The usual setup for a catalog: a grid of four by four, the catalog's
    /// first list switched on and the others off, no custom words.
    pub fn default(catalog: &Vec<WordList>) -> (config: Config)
        ensures
            config.size == (Tile { row: 4, col: 4 }),
            config.custom_words@.len() == 0,
            config.word_lists.len() == catalog.len(),
            forall|i: int|
                0 <= i < catalog.len() ==> (#[trigger] config.word_lists[i]).0@ == catalog[i].name@
                    && config.word_lists[i].1 == (i == 0),
    {
        let mut word_lists: Vec<(String, bool)> = Vec::new();
        let mut i: usize = 0;
        while i < catalog.len()
            invariant
                i <= catalog.len(),
                word_lists.len() == i,
                forall|k: int|
                    0 <= k < i ==> (#[trigger] word_lists[k]).0@ == catalog[k].name@ && word_lists[k].1
                        == (k == 0),
            decreases catalog.len() - i,
        {
            word_lists.push((catalog[i].name.clone(), i == 0));
            i += 1;
        }
        Config { size: Tile { row: 4, col: 4 }, word_lists, custom_words: Vec::new() }
    }

    /// Tests whether a game can be set up from this configuration.
    pub fn is_playable(&self, catalog: &Vec<WordList>) -> (ok: bool)
        ensures
            ok == self.can_set_up(catalog@),
    {
        if self.size.row.checked_mul(self.size.col).is_none() {
            return false;
        }
        if self.size.row.checked_add(self.size.col).is_none() {
            return false;
        }
        let mut i: usize = 0;
        while i < self.word_lists.len()
            invariant
                i <= self.word_lists.len(),
                forall|k: int|
                    0 <= k < i && (#[trigger] self.word_lists[k]).1 ==> is_listed(
                        catalog@,
                        self.word_lists[k].0@,
                    ),
            decreases self.word_lists.len() - i,
        {
            if self.word_lists[i].1 && !has_list(catalog, &self.word_lists[i].0) {
                return false;
            }
            i += 1;
        }
        true
    }

    /// Whether the word may become a label.
    pub open spec fn in_pool(self, catalog: Seq<WordList>, w: Seq<char>) -> bool {
        in_enabled_list(self.word_lists@, catalog, w) || self.custom_words.deep_view().contains(w)
    }

    /// The words that may become labels: those of the lists switched on,
    /// and the custom words.
    pub open spec fn word_pool(self, catalog: Seq<WordList>) -> Set<Seq<char>> {
        Set::new(|w: Seq<char>| self.in_pool(catalog, w))
    }

    /// Whether the catalog has every list that is switched on.
    pub open spec fn lists_known(self, catalog: Seq<WordList>) -> bool {
        forall|i: int|
            0 <= i < self.word_lists.len() && (#[trigger] self.word_lists[i]).1 ==> is_listed(
                catalog,
                self.word_lists[i].0@,
            )
    }

    /// Whether a game can be set up on this machine: the catalog has the
    /// lists asked for, and the cells and the labels can be counted.
    pub open spec fn can_set_up(self, catalog: Seq<WordList>) -> bool {
        &&& self.lists_known(catalog)
        &&& self.size.row * self.size.col <= usize::MAX
        &&& self.size.row + self.size.col <= usize::MAX
    }
}

/// Tests whether some list of the catalog bears the name.
pub fn has_list(catalog: &Vec<WordList>, name: &String) -> (found: bool)
    ensures
        found == is_listed(catalog@, name@),
{
    let mut j: usize = 0;
    while j < catalog.len()
        invariant
            j <= catalog.len(),
            forall|k: int| 0 <= k < j ==> (#[trigger] catalog[k]).name@ != name@,
        decreases catalog.len() - j,
    {
        if catalog[j].name == *name {
            return true;
        }
        j += 1;
    }
    false
}

/// Whether the pool holds the word.
pub fn contains_word(pool: &Vec<String>, word: &String) -> (found: bool)
    ensures
        found == pool.deep_view().contains(word@),
{
    let mut i: usize = 0;
    while i < pool.len()
        invariant
            i <= pool.len(),
            forall|k: int| 0 <= k < i ==> pool[k]@ != word@,
        decreases pool.len() - i,
    {
        if pool[i] == *word {
            assert(pool.deep_view()[i as int] == word@);
            return true;
        }
        i += 1;
    }
    assert forall|k: int| 0 <= k < pool.deep_view().len() implies pool.deep_view()[k] != word@ by {
        assert(pool.deep_view()[k] == pool[k]@);
    }
    false
}

/// Adds the word to the pool unless the pool has it.
pub fn add_word(pool: &mut Vec<String>, word: &String)
    requires
        old(pool).deep_view().no_duplicates(),
    ensures
        final(pool).deep_view().no_duplicates(),
        forall|w: Seq<char>| #[trigger]
            final(pool).deep_view().contains(w) <==> old(pool).deep_view().contains(w) || w == word@,
{
    let ghost before = pool.deep_view();
    if !contains_word(pool, word) {
        pool.push(word.clone());
        proof {
            assert(pool.deep_view() =~= before.push(word@));
            assert forall|w: Seq<char>| #[trigger]
                pool.deep_view().contains(w) <==> before.contains(w) || w == word@ by {
                if before.contains(w) {
                    let k = before.index_of(w);
                    assert(pool.deep_view()[k] == w);
                }
                if w == word@ {
                    assert(pool.deep_view()[before.len() as int] == w);
                }
            }
        }
    }
}

/// Adds to the pool each of the words that it does not have yet.
pub fn add_words(pool: &mut Vec<String>, words: &Vec<String>)
    requires
        old(pool).deep_view().no_duplicates(),
    ensures
        final(pool).deep_view().no_duplicates(),
        forall|w: Seq<char>| #[trigger]
            final(pool).deep_view().contains(w) <==> old(pool).deep_view().contains(w)
                || words.deep_view().contains(w),
{
    let ghost before = pool.deep_view();
    let ghost extra = words.deep_view();
    let mut k: usize = 0;
    while k < words.len()
        invariant
            k <= words.len(),
            extra == words.deep_view(),
            pool.deep_view().no_duplicates(),
            forall|w: Seq<char>| #[trigger]
                pool.deep_view().contains(w) <==> before.contains(w) || extra.take(k as int).contains(w),
        decreases words.len() - k,
    {
        let ghost sofar = pool.deep_view();
        add_word(pool, &words[k]);
        proof {
            let word = words[k as int]@;
            assert(extra[k as int] == word);
            assert forall|w: Seq<char>| #[trigger]
                pool.deep_view().contains(w) <==> before.contains(w) || extra.take(k + 1).contains(w) by {
                assert(sofar.contains(w) <==> before.contains(w) || extra.take(k as int).contains(w));
                if extra.take(k as int).contains(w) {
                    let j = extra.take(k as int).index_of(w);
                    assert(extra.take(k + 1)[j] == w);
                }
                if w == word {
                    assert(extra.take(k + 1)[k as int] == w);
                }
                if extra.take(k + 1).contains(w) {
                    let j = extra.take(k + 1).index_of(w);
                    if j < k {
                        assert(extra.take(k as int)[j] == w);
                    }
                }
            }
        }
        k += 1;
    }
    assert(extra.take(k as int) == extra);
}

/// Adds to the pool the words of every list of the catalog that bears the name.
pub fn add_named_lists(pool: &mut Vec<String>, catalog: &Vec<WordList>, name: &String)
    requires
        old(pool).deep_view().no_duplicates(),
    ensures
        final(pool).deep_view().no_duplicates(),
        forall|w: Seq<char>| #[trigger]
            final(pool).deep_view().contains(w) <==> old(pool).deep_view().contains(w)
                || in_named_list(catalog@, name@, w),
{
    let ghost before = pool.deep_view();
    let mut j: usize = 0;
    while j < catalog.len()
        invariant
            j <= catalog.len(),
            pool.deep_view().no_duplicates(),
            forall|w: Seq<char>| #[trigger]
                pool.deep_view().contains(w) <==> before.contains(w) || in_named_list(
                    catalog@.take(j as int),
                    name@,
                    w,
                ),
        decreases catalog.len() - j,
    {
        let ghost sofar = pool.deep_view();
        let ghost done = catalog@.take(j as int);
        let ghost next = catalog@.take(j + 1);
        if catalog[j].name == *name {
            add_words(pool, &catalog[j].words);
        }
        proof {
            assert(next[j as int] == catalog[j as int]);
            assert forall|w: Seq<char>| #[trigger]
                pool.deep_view().contains(w) <==> before.contains(w) || in_named_list(next, name@, w) by {
                assert(sofar.contains(w) <==> before.contains(w) || in_named_list(done, name@, w));
                if in_named_list(done, name@, w) {
                    let i = choose|i: int|
                        0 <= i < done.len() && (#[trigger] done[i]).name@ == name@ && done[i].holds(w);
                    assert(next[i] == done[i]);
                }
                if in_named_list(next, name@, w) {
                    let i = choose|i: int|
                        0 <= i < next.len() && (#[trigger] next[i]).name@ == name@ && next[i].holds(w);
                    if i < j {
                        assert(done[i] == next[i]);
                    }
                }
            }
        }
        j += 1;
    }
    assert(catalog@.take(j as int) == catalog@);
}

impl Config {
    /// Collects the words that may become labels, each once.
    pub fn gather_words(&self, catalog: &Vec<WordList>) -> (pool: Vec<String>)
        ensures
            pool.deep_view().no_duplicates(),
            pool.deep_view().to_set() == self.word_pool(catalog@),
            self.word_pool(catalog@).finite(),
            pool.len() == self.word_pool(catalog@).len(),
    {
        let mut pool: Vec<String> = Vec::new();
        let mut i: usize = 0;
        while i < self.word_lists.len()
            invariant
                i <= self.word_lists.len(),
                pool.deep_view().no_duplicates(),
                forall|w: Seq<char>| #[trigger]
                    pool.deep_view().contains(w) <==> in_enabled_list(
                        self.word_lists@.take(i as int),
                        catalog@,
                        w,
                    ),
            decreases self.word_lists.len() - i,
        {
            let ghost sofar = pool.deep_view();
            let ghost done = self.word_lists@.take(i as int);
            let ghost next = self.word_lists@.take(i + 1);
            if self.word_lists[i].1 {
                add_named_lists(&mut pool, catalog, &self.word_lists[i].0);
            }
            proof {
                assert(next[i as int] == self.word_lists[i as int]);
                assert forall|w: Seq<char>| #[trigger]
                    pool.deep_view().contains(w) <==> in_enabled_list(next, catalog@, w) by {
                    assert(sofar.contains(w) <==> in_enabled_list(done, catalog@, w));
                    if in_enabled_list(done, catalog@, w) {
                        let k = choose|k: int|
                            0 <= k < done.len() && (#[trigger] done[k]).1 && in_named_list(
                                catalog@,
                                done[k].0@,
                                w,
                            );
                        assert(next[k] == done[k]);
                    }
                    if in_enabled_list(next, catalog@, w) {
                        let k = choose|k: int|
                            0 <= k < next.len() && (#[trigger] next[k]).1 && in_named_list(
                                catalog@,
                                next[k].0@,
                                w,
                            );
                        if k < i {
                            assert(done[k] == next[k]);
                        }
                    }
                }
            }
            i += 1;
        }
        assert(self.word_lists@.take(i as int) == self.word_lists@);
        add_words(&mut pool, &self.custom_words);
        proof {
            assert(pool.deep_view().to_set() =~= self.word_pool(catalog@));
            pool.deep_view().unique_seq_to_set();
            vstd::seq_lib::seq_to_set_is_finite(pool.deep_view());
        }
        pool
    }
}

} // verus!
