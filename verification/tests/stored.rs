use board_game_io_cross_clues::action::Action;
use board_game_io_cross_clues::clue::Clue;
use board_game_io_cross_clues::game::Game;
use board_game_io_cross_clues::ids::PlayerId;
use board_game_io_cross_clues::parts::{all_distinct, grid_has_shape, has_failed, has_solved, holds_tile, seats_are_in_order, GameParts};
use board_game_io_cross_clues::tile::Tile;

const A: PlayerId = PlayerId(0);
const B: PlayerId = PlayerId(1);

fn t(row: usize, col: usize) -> Tile {
    Tile { row, col }
}

/// A 2 x 2 game in mid-play: (1,1) solved, one failed clue, B's clue in
/// play with a vote on (0,0). Hands: A (0,0), B (1,0). The deck is empty.
fn played() -> GameParts {
    let labels = vec!["a".to_string(), "b".to_string(), "c".to_string(), "d".to_string()];
    let mut game = Game::deal(t(2, 2), labels, vec![t(0, 0), t(0, 1), t(1, 0), t(1, 1)], 2);
    game.do_action(A, &Action::GiveClue { clue: "one".to_string() }).unwrap();
    game.do_action(B, &Action::TapTile { tile: t(1, 1) }).unwrap();
    game.do_action(A, &Action::GiveClue { clue: "two".to_string() }).unwrap();
    game.do_action(B, &Action::TapTile { tile: t(1, 0) }).unwrap();
    game.do_action(B, &Action::GiveClue { clue: "three".to_string() }).unwrap();
    game.do_action(A, &Action::SetVote { tile: t(0, 0), vote: true }).unwrap();
    game.into_parts()
}

fn broken(change: fn(&mut GameParts)) -> bool {
    let mut parts = played();
    assert!(parts.is_sound());
    change(&mut parts);
    let sound = parts.is_sound();
    assert_eq!(Game::from_parts(parts).is_some(), sound);
    !sound
}

#[test]
fn played_game_is_stored_and_taken_up_again() {
    let parts = played();
    assert_eq!(parts.size, t(2, 2));
    assert_eq!(parts.player_tiles, vec![Some(t(0, 0)), Some(t(1, 0))]);
    assert!(parts.tiles.is_empty());
    assert_eq!(parts.votes[0][0], vec![A]);
    assert_eq!(parts.bad_clues.len(), 1);
    assert!(parts.good_clues[1][1].is_some());
    assert!(parts.is_sound());
    let before = format!("{:?}", parts);
    let mut game = Game::from_parts(parts).unwrap();
    assert_eq!(format!("{:?}", game.clone().into_parts()), before);
    assert_eq!(game.do_action(A, &Action::TapTile { tile: t(1, 0) }), Ok(()));
    assert!(game.good_clues()[1][0].is_some());
    assert_eq!(game.held_tile(B), None);
}

#[test]
fn fresh_game_is_sound() {
    let labels = vec!["a".to_string(), "b".to_string(), "c".to_string()];
    let parts = Game::deal(t(1, 2), labels, vec![t(0, 1), t(0, 0)], 5).into_parts();
    assert!(parts.is_sound());
    let empty = Game::deal(t(0, 0), Vec::new(), Vec::new(), 0).into_parts();
    assert!(empty.is_sound());
}

#[test]
fn wrong_label_count_is_unsound() {
    assert!(broken(|p| p.labels.push("e".to_string())));
    assert!(broken(|p| {
        p.labels.pop();
    }));
    assert!(broken(|p| p.size = t(usize::MAX, 2)));
}

#[test]
fn seats_out_of_order_are_unsound() {
    assert!(broken(|p| p.players = vec![B, A]));
    assert!(broken(|p| p.players.push(PlayerId(2))));
    assert!(broken(|p| p.player_tiles.push(None)));
    assert!(broken(|p| p.players[1] = PlayerId(5)));
}

#[test]
fn misshapen_grids_are_unsound() {
    assert!(broken(|p| p.votes.push(vec![vec![], vec![]])));
    assert!(broken(|p| p.votes[1].push(vec![])));
    assert!(broken(|p| {
        p.good_clues.pop();
    }));
    assert!(broken(|p| {
        p.good_clues[0].pop();
    }));
    assert!(broken(|p| p.size = t(2, 1)));
}

#[test]
fn misplaced_tiles_are_unsound() {
    // In the deck: off the grid, solved, twice, or also in a hand.
    assert!(broken(|p| p.tiles.push(t(2, 0))));
    assert!(broken(|p| p.tiles.push(t(0, 2))));
    assert!(broken(|p| p.tiles.push(t(1, 1))));
    assert!(broken(|p| p.tiles = vec![t(0, 1), t(0, 1)]));
    assert!(broken(|p| p.tiles.push(t(0, 0))));
    assert!(!broken(|p| p.tiles.push(t(0, 1))));
    // In a hand: off the grid, solved, or held twice.
    assert!(broken(|p| p.player_tiles[0] = Some(t(0, 7))));
    assert!(broken(|p| p.player_tiles[0] = Some(t(1, 1))));
    assert!(broken(|p| p.player_tiles[0] = Some(t(1, 0))));
}

#[test]
fn inconsistent_clue_is_unsound() {
    assert!(broken(|p| p.current_clue.as_mut().unwrap().tile = None));
    assert!(broken(|p| p.current_clue.as_mut().unwrap().tile = Some(t(0, 0))));
    assert!(broken(|p| p.current_clue.as_mut().unwrap().guess = Some(t(0, 0))));
    assert!(broken(|p| p.current_clue.as_mut().unwrap().guesser = Some(A)));
    assert!(broken(|p| p.current_clue.as_mut().unwrap().player = PlayerId(9)));
    assert!(broken(|p| p.player_tiles[1] = None));
    assert!(!broken(|p| p.current_clue.as_mut().unwrap().clue = "other".to_string()));
    assert!(!broken(|p| {
        p.current_clue = None;
    }));
}

#[test]
fn inconsistent_votes_are_unsound() {
    assert!(broken(|p| p.votes[0][0] = vec![A, A]));
    assert!(broken(|p| p.votes[0][1] = vec![B, PlayerId(4), B]));
    assert!(broken(|p| p.votes[1][1] = vec![A]));
    assert!(!broken(|p| p.votes[1][0] = vec![B, A, PlayerId(4)]));
}

#[test]
fn inconsistent_records_are_unsound() {
    assert!(broken(|p| p.good_clues[1][1].as_mut().unwrap().tile = None));
    assert!(broken(|p| p.good_clues[1][1].as_mut().unwrap().tile = Some(t(0, 1))));
    assert!(broken(|p| p.good_clues[1][1].as_mut().unwrap().guess = Some(t(0, 1))));
    assert!(broken(|p| p.good_clues[1][1].as_mut().unwrap().guess = None));
    assert!(broken(|p| p.good_clues[1][1].as_mut().unwrap().guesser = None));
    assert!(broken(|p| p.bad_clues[0].tile = None));
    assert!(broken(|p| p.bad_clues[0].guess = None));
    assert!(broken(|p| p.bad_clues[0].guesser = None));
    assert!(broken(|p| p.bad_clues[0].guess = p.bad_clues[0].tile));
    assert!(broken(|p| {
        let moved = p.good_clues[1][1].take();
        p.good_clues[0][1] = moved;
    }));
}

#[test]
fn audit_helpers() {
    assert!(seats_are_in_order(&vec![A, B], 2));
    assert!(!seats_are_in_order(&vec![A, B], 3));
    assert!(!seats_are_in_order(&vec![B, A], 2));
    assert!(seats_are_in_order(&Vec::new(), 0));
    assert!(grid_has_shape(&vec![vec![A, B], vec![B, A]], &t(2, 2)));
    assert!(!grid_has_shape(&vec![vec![A, B], vec![B]], &t(2, 2)));
    assert!(!grid_has_shape(&vec![vec![A, B]], &t(2, 2)));
    assert!(grid_has_shape(&Vec::<Vec<PlayerId>>::new(), &t(0, 3)));
    assert!(holds_tile(&vec![t(0, 0), t(1, 2)], &t(1, 2)));
    assert!(!holds_tile(&vec![t(0, 0), t(1, 2)], &t(2, 1)));
    assert!(all_distinct(&vec![A, B, PlayerId(2)]));
    assert!(!all_distinct(&vec![A, B, A]));
    assert!(all_distinct(&Vec::new()));
    let right = Clue { player: A, tile: Some(t(1, 1)), clue: "x".to_string(), guess: Some(t(1, 1)), guesser: Some(B) };
    let wrong = Clue { player: A, tile: Some(t(1, 1)), clue: "x".to_string(), guess: Some(t(0, 1)), guesser: Some(B) };
    assert!(has_solved(&right, &t(1, 1)));
    assert!(!has_solved(&right, &t(0, 1)));
    assert!(!has_solved(&wrong, &t(1, 1)));
    assert!(!has_solved(&wrong, &t(0, 1)));
    assert!(has_failed(&wrong));
    assert!(!has_failed(&right));
    assert!(!has_failed(&wrong.hide_tile()));
}
