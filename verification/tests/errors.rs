use board_game_io_cross_clues::action::Action;
use board_game_io_cross_clues::error::{ActionError, CreationError};
use board_game_io_cross_clues::game::Game;
use board_game_io_cross_clues::ids::PlayerId;
use board_game_io_cross_clues::tile::Tile;

const A: PlayerId = PlayerId(0);
const B: PlayerId = PlayerId(1);

fn t(row: usize, col: usize) -> Tile {
    Tile { row, col }
}

fn labels(n: usize) -> Vec<String> {
    (0..n).map(|i| format!("w{}", i)).collect()
}

/// A 2 x 2 game for two seats: seat 0 holds (1,1), seat 1 holds (1,0), the
/// deck is (0,0), (0,1) and hands out (0,1) first.
fn small_game() -> Game {
    Game::deal(t(2, 2), labels(4), vec![t(0, 0), t(0, 1), t(1, 0), t(1, 1)], 2)
}

fn clue(text: &str) -> Action {
    Action::GiveClue { clue: text.to_string() }
}

fn rejected(game: &mut Game, player: PlayerId, action: Action, why: ActionError) {
    let before = format!("{:?}", game);
    assert_eq!(game.do_action(player, &action), Err(why));
    assert_eq!(format!("{:?}", game), before);
}

#[test]
fn second_clue_is_rejected() {
    let mut game = small_game();
    assert_eq!(game.do_action(A, &clue("one")), Ok(()));
    rejected(&mut game, B, clue("two"), ActionError::ClueAlreadyActive);
    rejected(&mut game, A, clue("two"), ActionError::ClueAlreadyActive);
    assert_eq!(game.current_clue().clone().unwrap().clue, "one");
}

#[test]
fn stranger_has_no_secret_to_clue() {
    let mut game = small_game();
    rejected(&mut game, PlayerId(2), clue("hi"), ActionError::NoSecretToClue);
    rejected(&mut game, PlayerId(u32::MAX), clue("hi"), ActionError::NoSecretToClue);
}

#[test]
fn empty_handed_player_has_no_secret_to_clue() {
    // One cell, two seats: seat 1 gets nothing.
    let mut game = Game::deal(t(1, 1), labels(2), vec![t(0, 0)], 2);
    assert_eq!(game.held_tile(A), Some(t(0, 0)));
    assert_eq!(game.held_tile(B), None);
    rejected(&mut game, B, clue("hi"), ActionError::NoSecretToClue);
    assert_eq!(game.do_action(A, &clue("hi")), Ok(()));
}

#[test]
fn vote_needs_an_active_clue() {
    let mut game = small_game();
    rejected(&mut game, B, Action::SetVote { tile: t(0, 0), vote: true }, ActionError::NoActiveClue);
    rejected(&mut game, B, Action::SetVote { tile: t(0, 0), vote: false }, ActionError::NoActiveClue);
}

#[test]
fn tap_needs_an_active_clue() {
    let mut game = small_game();
    rejected(&mut game, B, Action::TapTile { tile: t(1, 1) }, ActionError::NoActiveClue);
}

#[test]
fn own_clue_cannot_be_guessed() {
    let mut game = small_game();
    assert_eq!(game.do_action(A, &clue("mine")), Ok(()));
    rejected(&mut game, A, Action::TapTile { tile: t(1, 1) }, ActionError::GuessOnOwnClue);
    rejected(&mut game, A, Action::TapTile { tile: t(0, 0) }, ActionError::GuessOnOwnClue);
    assert!(game.current_clue().is_some());
}

#[test]
fn solved_tile_takes_no_vote_and_no_tap() {
    let mut game = small_game();
    assert_eq!(game.do_action(A, &clue("mine")), Ok(()));
    assert_eq!(game.do_action(B, &Action::TapTile { tile: t(1, 1) }), Ok(()));
    // With no clue in play: a vote names the solved tile first, a tap the missing clue first.
    rejected(&mut game, B, Action::SetVote { tile: t(1, 1), vote: true }, ActionError::TileAlreadySolved);
    rejected(&mut game, B, Action::TapTile { tile: t(1, 1) }, ActionError::NoActiveClue);
    assert_eq!(game.do_action(B, &clue("next")), Ok(()));
    rejected(&mut game, A, Action::SetVote { tile: t(1, 1), vote: true }, ActionError::TileAlreadySolved);
    rejected(&mut game, A, Action::TapTile { tile: t(1, 1) }, ActionError::TileAlreadySolved);
    // The owner is told about the solved tile before being told it is their own clue.
    rejected(&mut game, B, Action::SetVote { tile: t(1, 1), vote: true }, ActionError::TileAlreadySolved);
    rejected(&mut game, B, Action::TapTile { tile: t(1, 1) }, ActionError::TileAlreadySolved);
    rejected(&mut game, B, Action::SetVote { tile: t(0, 0), vote: true }, ActionError::VoteOnOwnClue);
}

#[test]
fn reasons_read_as_documented() {
    assert_eq!(ActionError::ClueAlreadyActive.reason(), "clue already active");
    assert_eq!(ActionError::NoSecretToClue.reason(), "no secret to clue");
    assert_eq!(ActionError::TileAlreadySolved.reason(), "tile already solved");
    assert_eq!(ActionError::NoActiveClue.reason(), "no active clue");
    assert_eq!(ActionError::VoteOnOwnClue.reason(), "cannot vote on own clue");
    assert_eq!(ActionError::GuessOnOwnClue.reason(), "cannot guess for own clue");
    assert_eq!(CreationError::NotEnoughWords.reason(), "not enough distinct words for the grid");
}
