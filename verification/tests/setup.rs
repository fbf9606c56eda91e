use board_game_io_cross_clues::config::{add_named_lists, add_word, add_words, contains_word, has_list, Config, WordList};
use board_game_io_cross_clues::error::CreationError;
use board_game_io_cross_clues::game::Game;
use board_game_io_cross_clues::ids::PlayerId;
use board_game_io_cross_clues::setup::all_tiles;
use board_game_io_cross_clues::tile::Tile;

fn t(row: usize, col: usize) -> Tile {
    Tile { row, col }
}

fn words(list: &[&str]) -> Vec<String> {
    list.iter().map(|w| w.to_string()).collect()
}

fn list(name: &str, list: &[&str]) -> WordList {
    WordList { name: name.to_string(), words: words(list) }
}

fn catalog() -> Vec<WordList> {
    vec![
        list("animals", &["cat", "dog", "owl", "fox", "bee"]),
        list("tools", &["saw", "axe", "awl", "cat"]),
        list("empty", &[]),
    ]
}

fn config(rows: usize, cols: usize, on: &[(&str, bool)], custom: &[&str]) -> Config {
    Config {
        size: t(rows, cols),
        word_lists: on.iter().map(|(name, enabled)| (name.to_string(), *enabled)).collect(),
        custom_words: words(custom),
    }
}

fn sorted(mut v: Vec<String>) -> Vec<String> {
    v.sort();
    v
}

fn sorted_tiles(mut v: Vec<Tile>) -> Vec<Tile> {
    v.sort();
    v
}

/// The deck and the hands of a game, as one list.
fn dealt_tiles(game: &Game) -> Vec<Tile> {
    let mut all = game.deck().clone();
    all.extend(game.player_tiles().iter().flatten().cloned());
    all
}

#[test]
fn all_tiles_lists_the_grid_row_by_row() {
    assert_eq!(all_tiles(&t(2, 3)), vec![t(0, 0), t(0, 1), t(0, 2), t(1, 0), t(1, 1), t(1, 2)]);
    assert_eq!(all_tiles(&t(1, 1)), vec![t(0, 0)]);
    assert!(all_tiles(&t(0, 5)).is_empty());
    assert!(all_tiles(&t(5, 0)).is_empty());
}

#[test]
fn default_switches_on_the_first_list_only() {
    let config = Config::default(&catalog());
    assert_eq!(config.size, t(4, 4));
    assert_eq!(
        config.word_lists,
        vec![("animals".to_string(), true), ("tools".to_string(), false), ("empty".to_string(), false)]
    );
    assert!(config.custom_words.is_empty());
    let none = Config::default(&Vec::new());
    assert!(none.word_lists.is_empty());
    assert_eq!(none.size, t(4, 4));
}

#[test]
fn word_pool_collapses_duplicates() {
    let c = config(2, 2, &[("animals", true), ("tools", true), ("empty", true)], &["dog", "zip", "zip"]);
    let pool = c.gather_words(&catalog());
    assert_eq!(pool.len(), 9);
    assert_eq!(
        sorted(pool),
        words(&["awl", "axe", "bee", "cat", "dog", "fox", "owl", "saw", "zip"])
    );
}

#[test]
fn word_pool_leaves_out_lists_switched_off() {
    let c = config(2, 2, &[("animals", false), ("tools", true)], &[]);
    assert_eq!(sorted(c.gather_words(&catalog())), words(&["awl", "axe", "cat", "saw"]));
    let only_custom = config(2, 2, &[("animals", false)], &["b", "a"]);
    assert_eq!(sorted(only_custom.gather_words(&catalog())), words(&["a", "b"]));
}

#[test]
fn pool_helpers_add_each_word_once() {
    let mut pool = words(&["a"]);
    add_word(&mut pool, &"b".to_string());
    add_word(&mut pool, &"a".to_string());
    assert_eq!(pool, words(&["a", "b"]));
    add_words(&mut pool, &words(&["c", "b", "c", "d"]));
    assert_eq!(pool, words(&["a", "b", "c", "d"]));
    assert!(contains_word(&pool, &"c".to_string()));
    assert!(!contains_word(&pool, &"e".to_string()));
    assert!(!contains_word(&Vec::new(), &"a".to_string()));
    add_named_lists(&mut pool, &catalog(), &"tools".to_string());
    assert_eq!(pool, words(&["a", "b", "c", "d", "saw", "axe", "awl", "cat"]));
    add_named_lists(&mut pool, &catalog(), &"nowhere".to_string());
    assert_eq!(pool.len(), 8);
    assert!(has_list(&catalog(), &"empty".to_string()));
    assert!(!has_list(&catalog(), &"nowhere".to_string()));
}

#[test]
fn playable_wants_known_lists_and_countable_grids() {
    let cat = catalog();
    assert!(config(4, 4, &[("animals", true), ("mystery", false)], &[]).is_playable(&cat));
    assert!(!config(4, 4, &[("animals", true), ("mystery", true)], &[]).is_playable(&cat));
    assert!(!config(usize::MAX, 2, &[], &[]).is_playable(&cat));
    assert!(!config(usize::MAX, 1, &[], &[]).is_playable(&cat));
    assert!(config(usize::MAX - 1, 1, &[], &[]).is_playable(&cat));
    assert!(config(0, 0, &[], &[]).is_playable(&cat));
}

#[test]
fn too_few_words_fail_setup() {
    let cat = catalog();
    // Five words for 3 + 3 labels.
    let short = config(3, 3, &[("animals", true)], &[]);
    assert_eq!(Game::new(short, &cat, 2).err(), Some(CreationError::NotEnoughWords));
    // A repeated custom word does not count twice.
    let repeated = config(3, 3, &[("animals", true)], &["cat"]);
    assert_eq!(Game::new(repeated, &cat, 2).err(), Some(CreationError::NotEnoughWords));
    // One more distinct word is exactly enough.
    let enough = config(3, 3, &[("animals", true)], &["zip"]);
    let game = Game::new(enough, &cat, 2).unwrap();
    assert_eq!(sorted(game.labels().clone()), words(&["bee", "cat", "dog", "fox", "owl", "zip"]));
}

#[test]
fn labels_are_distinct_words_of_the_pool() {
    let cat = catalog();
    for _ in 0..20 {
        let c = config(2, 3, &[("animals", true), ("tools", true)], &["zip"]);
        let pool = c.gather_words(&cat);
        assert_eq!(pool.len(), 9);
        let game = Game::new(c, &cat, 3).unwrap();
        let labels = game.labels().clone();
        assert_eq!(labels.len(), 5);
        let mut distinct = sorted(labels.clone());
        distinct.dedup();
        assert_eq!(distinct.len(), 5);
        assert!(labels.iter().all(|l| pool.contains(l)));
    }
}

#[test]
fn setup_shares_out_the_whole_grid() {
    let cat = catalog();
    for players in [0u32, 1, 2, 5, 6, 7, 9] {
        let c = config(2, 3, &[("animals", true)], &[]);
        let game = Game::new(c, &cat, players).unwrap();
        assert_eq!(sorted_tiles(dealt_tiles(&game)), all_tiles(&t(2, 3)));
        assert_eq!(game.player_tiles().len(), players as usize);
        assert_eq!(game.deck().len(), 6usize.saturating_sub(players as usize));
        assert!(game.good_clues().iter().all(|row| row.len() == 3 && row.iter().all(|c| c.is_none())));
        assert!(game.votes().iter().all(|row| row.len() == 3 && row.iter().all(|c| c.is_empty())));
        assert_eq!(game.good_clues().len(), 2);
        assert_eq!(game.votes().len(), 2);
        assert!(game.bad_clues().is_empty());
        assert!(game.current_clue().is_none());
        let expected: Vec<PlayerId> = (0..players).map(PlayerId).collect();
        assert_eq!(game.players(), expected);
        for seat in 0..players {
            assert_eq!(game.held_tile(PlayerId(seat)).is_some(), seat < 6);
        }
        assert_eq!(game.game_over(), false);
    }
}

#[test]
fn setup_shuffles_the_tiles() {
    let cat = catalog();
    let grid = all_tiles(&t(5, 5));
    let mut moved = false;
    for _ in 0..50 {
        let c = config(5, 5, &[("animals", true), ("tools", true)], &["zip", "zap"]);
        let game = Game::new(c, &cat, 0).unwrap();
        assert_eq!(sorted_tiles(game.deck().clone()), grid);
        if *game.deck() != grid {
            moved = true;
        }
    }
    assert!(moved);
}

#[test]
fn deal_hands_out_the_end_of_the_pile() {
    let pile = vec![t(0, 1), t(1, 0), t(0, 0), t(1, 1)];
    let labels = words(&["r0", "r1", "c0", "c1"]);
    let game = Game::deal(t(2, 2), labels.clone(), pile.clone(), 3);
    assert_eq!(*game.player_tiles(), vec![Some(t(1, 1)), Some(t(0, 0)), Some(t(1, 0))]);
    assert_eq!(*game.deck(), vec![t(0, 1)]);
    assert_eq!(*game.labels(), labels);
    assert_eq!(*game.size(), t(2, 2));
    assert_eq!(game.players(), vec![PlayerId(0), PlayerId(1), PlayerId(2)]);
    let crowded = Game::deal(t(2, 2), labels.clone(), pile.clone(), 6);
    assert_eq!(
        *crowded.player_tiles(),
        vec![Some(t(1, 1)), Some(t(0, 0)), Some(t(1, 0)), Some(t(0, 1)), None, None]
    );
    assert!(crowded.deck().is_empty());
    assert!(!crowded.game_over());
    let exact = Game::deal(t(2, 2), labels, pile, 4);
    assert!(exact.deck().is_empty());
    assert!(exact.player_tiles().iter().all(|h| h.is_some()));
}

#[test]
fn empty_grid_is_over_at_once() {
    let game = Game::deal(t(0, 0), Vec::new(), Vec::new(), 2);
    assert!(game.game_over());
    assert!(game.view(None).players_with_tiles.is_empty());
    let nobody = Game::deal(t(1, 1), words(&["a", "b"]), vec![t(0, 0)], 0);
    assert!(!nobody.game_over());
}
