use board_game_io_cross_clues::action::Action;
use board_game_io_cross_clues::board::{clear_votes, position_of, toggle};
use board_game_io_cross_clues::clue::Clue;
use board_game_io_cross_clues::game::Game;
use board_game_io_cross_clues::ids::{CharacterId, PlayerId, Token};
use board_game_io_cross_clues::tile::Tile;

const A: PlayerId = PlayerId(0);
const B: PlayerId = PlayerId(1);
const C: PlayerId = PlayerId(2);

fn t(row: usize, col: usize) -> Tile {
    Tile { row, col }
}

fn labels(n: usize) -> Vec<String> {
    (0..n).map(|i| format!("w{}", i)).collect()
}

/// A 2 x 3 game for three seats. Hands: A (1,2), B (1,1), C (1,0).
/// Deck: (0,0), (0,1), (0,2); (0,2) is handed out first.
fn game() -> Game {
    Game::deal(t(2, 3), labels(5), vec![t(0, 0), t(0, 1), t(0, 2), t(1, 0), t(1, 1), t(1, 2)], 3)
}

fn clue(text: &str) -> Action {
    Action::GiveClue { clue: text.to_string() }
}

fn vote(tile: Tile, vote: bool) -> Action {
    Action::SetVote { tile, vote }
}

fn tap(tile: Tile) -> Action {
    Action::TapTile { tile }
}

#[test]
fn clue_records_the_held_tile() {
    let mut g = game();
    assert_eq!(g.do_action(B, &clue("river")), Ok(()));
    assert_eq!(
        *g.current_clue(),
        Some(Clue { player: B, tile: Some(t(1, 1)), clue: "river".to_string(), guess: None, guesser: None })
    );
    assert_eq!(g.deck().len(), 3);
    assert_eq!(*g.player_tiles(), vec![Some(t(1, 2)), Some(t(1, 1)), Some(t(1, 0))]);
}

#[test]
fn votes_toggle_and_keep_their_order() {
    let mut g = game();
    g.do_action(A, &clue("x")).unwrap();
    assert_eq!(g.do_action(B, &vote(t(0, 1), true)), Ok(()));
    assert_eq!(g.do_action(C, &vote(t(0, 1), true)), Ok(()));
    assert_eq!(g.do_action(PlayerId(7), &vote(t(0, 1), true)), Ok(()));
    assert_eq!(g.votes()[0][1], vec![B, C, PlayerId(7)]);
    assert_eq!(g.do_action(B, &vote(t(1, 2), true)), Ok(()));
    assert_eq!(g.votes()[1][2], vec![B]);
    assert_eq!(g.do_action(C, &vote(t(0, 1), false)), Ok(()));
    assert_eq!(g.votes()[0][1], vec![B, PlayerId(7)]);
    let others: usize = g.votes().iter().flatten().map(|cell| cell.len()).sum();
    assert_eq!(others, 3);
}

#[test]
fn setting_a_vote_twice_is_setting_it_once() {
    let mut g = game();
    g.do_action(A, &clue("x")).unwrap();
    g.do_action(C, &vote(t(0, 0), true)).unwrap();
    g.do_action(B, &vote(t(0, 0), true)).unwrap();
    let once = format!("{:?}", g);
    assert_eq!(g.do_action(B, &vote(t(0, 0), true)), Ok(()));
    assert_eq!(format!("{:?}", g), once);
    assert_eq!(g.votes()[0][0], vec![C, B]);
    g.do_action(C, &vote(t(0, 0), false)).unwrap();
    let once = format!("{:?}", g);
    assert_eq!(g.do_action(C, &vote(t(0, 0), false)), Ok(()));
    assert_eq!(format!("{:?}", g), once);
    assert_eq!(g.votes()[0][0], vec![B]);
    // Withdrawing a vote that was never cast changes nothing either.
    assert_eq!(g.do_action(PlayerId(9), &vote(t(1, 1), false)), Ok(()));
    assert_eq!(format!("{:?}", g), once);
}

#[test]
fn tap_clears_every_vote() {
    let mut g = game();
    g.do_action(A, &clue("x")).unwrap();
    g.do_action(B, &vote(t(0, 0), true)).unwrap();
    g.do_action(C, &vote(t(1, 2), true)).unwrap();
    g.do_action(C, &vote(t(1, 1), true)).unwrap();
    assert_eq!(g.do_action(B, &tap(t(0, 0))), Ok(()));
    assert!(g.votes().iter().all(|row| row.len() == 3 && row.iter().all(|cell| cell.is_empty())));
    assert_eq!(g.votes().len(), 2);
}

#[test]
fn deck_drains_by_one_per_tap_and_stays_empty() {
    let mut g = game();
    let mut left = 3;
    // A's clue is guessed wrongly four times over; A is dealt a new tile while there is one.
    for round in 0..4 {
        assert_eq!(g.deck().len(), left);
        let before = g.deck().clone();
        assert_eq!(g.do_action(A, &clue("x")), Ok(()));
        assert_eq!(g.do_action(B, &vote(t(0, 0), true)), Ok(()));
        assert_eq!(*g.deck(), before);
        assert_eq!(g.do_action(B, &tap(t(1, 1))), Ok(()));
        if left > 0 {
            left -= 1;
            assert_eq!(g.held_tile(A), Some(before[left]));
        } else {
            assert_eq!(g.held_tile(A), None);
        }
        assert_eq!(g.deck().len(), left);
        assert_eq!(*g.deck(), before[..left].to_vec());
        assert_eq!(g.bad_clues().len(), round + 1);
        assert!(g.current_clue().is_none());
        if g.held_tile(A).is_none() {
            break;
        }
    }
    assert_eq!(g.deck().len(), 0);
    assert_eq!(g.held_tile(A), None);
    assert_eq!(g.view(None).players_with_tiles, vec![B, C]);
    assert_eq!(g.bad_clues().len(), 4);
    assert!(!g.game_over());
}

#[test]
fn solved_tiles_keep_their_record() {
    let mut g = game();
    g.do_action(A, &clue("first")).unwrap();
    g.do_action(C, &tap(t(1, 2))).unwrap();
    let record = g.good_clues()[1][2].clone();
    assert_eq!(
        record,
        Some(Clue { player: A, tile: Some(t(1, 2)), clue: "first".to_string(), guess: Some(t(1, 2)), guesser: Some(C) })
    );
    assert_eq!(g.held_tile(A), Some(t(0, 2)));
    let moves = [
        (B, clue("second")),
        (A, vote(t(1, 2), true)),
        (A, tap(t(1, 2))),
        (A, vote(t(1, 1), true)),
        (A, tap(t(0, 0))),
        (C, clue("third")),
        (C, tap(t(1, 2))),
        (A, tap(t(1, 0))),
        (A, clue("fourth")),
        (B, tap(t(0, 2))),
    ];
    for (player, action) in moves.iter() {
        let _ = g.do_action(*player, action);
        assert_eq!(g.good_clues()[1][2], record);
    }
    assert!(g.good_clues()[1][0].is_some());
    assert!(g.good_clues()[0][2].is_some());
    assert_eq!(g.bad_clues().len(), 1);
    assert_eq!(g.bad_clues()[0].tile, Some(t(1, 1)));
    assert_eq!(g.bad_clues()[0].guess, Some(t(0, 0)));
}

#[test]
fn clue_answer_is_shown_to_its_owner_only() {
    let mut g = game();
    g.do_action(B, &clue("river")).unwrap();
    assert_eq!(g.view(Some(B)).current_clue.unwrap().tile, Some(t(1, 1)));
    for viewer in [Some(A), Some(C), Some(PlayerId(8)), None] {
        let shown = g.view(viewer).current_clue.unwrap();
        assert_eq!(shown.tile, None);
        assert_eq!(shown.clue, "river");
        assert_eq!(shown.player, B);
        assert_eq!(shown.guess, None);
        assert_eq!(shown.guesser, None);
    }
    // The raw state is untouched by looking at it.
    assert_eq!(g.current_clue().clone().unwrap().tile, Some(t(1, 1)));
}

#[test]
fn view_shows_own_tile_and_public_parts() {
    let mut g = game();
    g.do_action(A, &clue("x")).unwrap();
    g.do_action(B, &vote(t(0, 1), true)).unwrap();
    let a = g.view(Some(A));
    assert_eq!(a.player_tile, Some(t(1, 2)));
    assert_eq!(a.tiles_remaining, 3);
    assert_eq!(a.players_with_tiles, vec![A, B, C]);
    assert_eq!(*a.players, vec![A, B, C]);
    assert_eq!(*a.labels, labels(5));
    assert_eq!(*a.size, t(2, 3));
    assert_eq!(a.votes[0][1], vec![B]);
    assert_eq!(g.view(Some(C)).player_tile, Some(t(1, 0)));
    assert_eq!(g.view(Some(PlayerId(3))).player_tile, None);
    assert_eq!(g.view(None).player_tile, None);
}

#[test]
fn hide_tile_blanks_the_answer_only() {
    let full = Clue { player: B, tile: Some(t(1, 1)), clue: "river".to_string(), guess: Some(t(0, 0)), guesser: Some(A) };
    let hidden = full.hide_tile();
    assert_eq!(
        hidden,
        Clue { player: B, tile: None, clue: "river".to_string(), guess: Some(t(0, 0)), guesser: Some(A) }
    );
    assert_eq!(hidden.hide_tile(), hidden);
    assert_eq!(full.clone(), full);
}

#[test]
fn clone_copies_the_whole_game() {
    let mut g = game();
    g.do_action(A, &clue("x")).unwrap();
    g.do_action(B, &vote(t(0, 1), true)).unwrap();
    g.do_action(B, &tap(t(1, 2))).unwrap();
    g.do_action(B, &clue("y")).unwrap();
    g.do_action(A, &tap(t(0, 0))).unwrap();
    g.do_action(C, &clue("z")).unwrap();
    g.do_action(A, &vote(t(0, 0), true)).unwrap();
    let copy = g.clone();
    assert_eq!(format!("{:?}", copy), format!("{:?}", g));
    g.do_action(A, &tap(t(1, 0))).unwrap();
    assert_ne!(format!("{:?}", copy), format!("{:?}", g));
}

#[test]
fn actions_know_whether_they_fit_the_grid() {
    let size = t(2, 3);
    assert!(clue("x").is_on_grid(&size));
    assert!(tap(t(1, 2)).is_on_grid(&size));
    assert!(!tap(t(2, 0)).is_on_grid(&size));
    assert!(!tap(t(0, 3)).is_on_grid(&size));
    assert!(vote(t(0, 0), false).is_on_grid(&size));
    assert!(!vote(t(5, 5), true).is_on_grid(&size));
    assert!(!tap(t(0, 0)).is_on_grid(&t(0, 0)));
    assert_eq!(tap(t(1, 2)).clone(), tap(t(1, 2)));
    assert_eq!(clue("x").clone(), clue("x"));
}

#[test]
fn tiles_are_ordered_row_major() {
    assert!(t(0, 5).is_before(&t(1, 0)));
    assert!(t(1, 0).is_before(&t(1, 1)));
    assert!(!t(1, 1).is_before(&t(1, 1)));
    assert!(!t(2, 0).is_before(&t(1, 9)));
    assert!(t(0, 5) < t(1, 0));
    assert!(t(1, 0) < t(1, 1));
    assert!(t(1, 1).is_within(&t(2, 2)));
    assert!(!t(2, 1).is_within(&t(2, 2)));
    assert!(!t(1, 2).is_within(&t(2, 2)));
}

#[test]
fn vote_list_helpers() {
    let mut voters = vec![A, B, C];
    assert_eq!(position_of(&voters, B), Some(1));
    assert_eq!(position_of(&voters, PlayerId(5)), None);
    toggle(&mut voters, B, false);
    assert_eq!(voters, vec![A, C]);
    toggle(&mut voters, B, false);
    assert_eq!(voters, vec![A, C]);
    toggle(&mut voters, B, true);
    assert_eq!(voters, vec![A, C, B]);
    toggle(&mut voters, A, true);
    assert_eq!(voters, vec![A, C, B]);
    let mut grid = vec![vec![vec![A], vec![], vec![B, C]], vec![vec![C], vec![A, B], vec![]]];
    clear_votes(&mut grid);
    assert_eq!(grid, vec![vec![Vec::<PlayerId>::new(); 3]; 2]);
    let mut ragged = vec![vec![vec![A], vec![B, C]], vec![], vec![vec![C]]];
    clear_votes(&mut ragged);
    assert_eq!(ragged, vec![vec![vec![], vec![]], vec![], vec![vec![]]]);
    // With a repeated voter, withdrawing takes out the first place only.
    let mut twice = vec![B, A, B];
    toggle(&mut twice, B, false);
    assert_eq!(twice, vec![A, B]);
}

#[test]
fn ids_compare_by_value() {
    assert_eq!(CharacterId("ann".to_string()), CharacterId("ann".to_string()));
    assert_ne!(Token("a".to_string()), Token("b".to_string()));
    assert_eq!(Token("a".to_string()).clone().0, "a");
    assert!(PlayerId(1) < PlayerId(2));
}
