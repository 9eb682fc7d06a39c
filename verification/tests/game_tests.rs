use battleship::game::{Board, FireOutcome, Game, GameError, GameState, PlayerIdx};

fn two_player_playing_game() -> Game {
    let mut game = Game::new(11, 18).unwrap();
    game.add_player("Tim", "cookie1").unwrap();
    game.add_player("Avi", "cookie2").unwrap();
    game.start_game().unwrap();
    game
}

#[test]
fn test_new_game() {
    let mut game = Game::new(10, 5).unwrap();
    game.add_player("Tim", "1234").unwrap();
    assert_eq!(game.board.height, 10);
}

#[test]
fn new_game_rejects_bad_dimensions() {
    assert_eq!(Game::new(0, 5).unwrap_err(), GameError::InvalidDimensions);
    assert_eq!(Game::new(5, 0).unwrap_err(), GameError::InvalidDimensions);
    assert_eq!(Game::new(-3, 4).unwrap_err(), GameError::InvalidDimensions);
    assert_eq!(Board::new(7, -1).unwrap_err(), GameError::InvalidDimensions);
}

#[test]
fn new_board_starts_unrevealed() {
    let board = Board::new(3, 4).unwrap();
    assert_eq!(board.height, 3);
    assert_eq!(board.width, 4);
    assert_eq!(board.data.len(), 3);
    for row in &board.data {
        assert_eq!(row.len(), 4);
        for cell in row {
            assert!(!cell.uncovered);
            assert!(cell.hits.is_empty());
        }
    }
}

#[test]
fn lobby_reaches_playing_state() {
    let game = two_player_playing_game();
    assert_eq!(game.players.len(), 2);
    assert_eq!(game.players[0].name, "Tim");
    assert_eq!(game.players[1].cookie, "cookie2");
    match &game.state {
        GameState::Playing(ps) => {
            assert_eq!(ps.next_turn.0, 0);
            assert!(ps.eliminated_order.is_empty());
        }
        other => panic!("expected a playing state, got {:?}", other),
    }
}

#[test]
fn start_needs_two_players() {
    let mut game = Game::new(11, 18).unwrap();
    assert_eq!(game.start_game().unwrap_err(), GameError::NotEnoughPlayers);
    game.add_player("Tim", "cookie1").unwrap();
    assert_eq!(game.start_game().unwrap_err(), GameError::NotEnoughPlayers);
    assert!(matches!(game.state, GameState::WaitingForPlayers));
    game.add_player("Avi", "cookie2").unwrap();
    game.start_game().unwrap();
    assert_eq!(game.start_game().unwrap_err(), GameError::InvalidState);
}

#[test]
fn add_player_after_start_rejected() {
    let mut game = two_player_playing_game();
    assert_eq!(
        game.add_player("Zoe", "cookie3").unwrap_err(),
        GameError::InvalidState
    );
    assert_eq!(game.players.len(), 2);
}

#[test]
fn fire_out_of_turn_rejected() {
    let mut game = two_player_playing_game();
    let err = game.fire(PlayerIdx(1), 0, 0, false, None).unwrap_err();
    assert_eq!(err, GameError::NotYourTurn);
    // the board and the state are untouched by the rejected attempt
    assert!(!game.board.data[0][0].uncovered);
    match &game.state {
        GameState::Playing(ps) => {
            assert_eq!(ps.next_turn.0, 0);
            assert!(ps.eliminated_order.is_empty());
        }
        other => panic!("expected a playing state, got {:?}", other),
    }
}

#[test]
fn fire_in_turn_reveals_and_passes_turn() {
    let mut game = two_player_playing_game();
    let out = game.fire(PlayerIdx(0), 5, 5, false, None).unwrap();
    assert_eq!(
        out,
        FireOutcome { already_revealed: false, eliminated: None, finished: false }
    );
    assert!(game.board.data[5][5].uncovered);
    assert!(game.board.data[5][5].hits.is_empty());
    match &game.state {
        GameState::Playing(ps) => assert_eq!(ps.next_turn.0, 1),
        other => panic!("expected a playing state, got {:?}", other),
    }
}

#[test]
fn fire_before_start_rejected() {
    let mut game = Game::new(11, 18).unwrap();
    game.add_player("Tim", "cookie1").unwrap();
    let err = game.fire(PlayerIdx(0), 0, 0, false, None).unwrap_err();
    assert_eq!(err, GameError::InvalidState);
}

#[test]
fn fire_out_of_bounds_rejected() {
    let mut game = two_player_playing_game();
    assert_eq!(
        game.fire(PlayerIdx(0), 11, 0, false, None).unwrap_err(),
        GameError::OutOfBounds
    );
    assert_eq!(
        game.fire(PlayerIdx(0), 0, 18, false, None).unwrap_err(),
        GameError::OutOfBounds
    );
    match &game.state {
        GameState::Playing(ps) => assert_eq!(ps.next_turn.0, 0),
        other => panic!("expected a playing state, got {:?}", other),
    }
}

#[test]
fn firing_twice_at_a_cell_is_legal() {
    let mut game = two_player_playing_game();
    let first = game.fire(PlayerIdx(0), 2, 3, true, None).unwrap();
    assert!(!first.already_revealed);
    let second = game.fire(PlayerIdx(1), 2, 3, true, None).unwrap();
    assert!(second.already_revealed);
    // both hits are recorded, in firing order
    assert_eq!(game.board.data[2][3].hits, vec![PlayerIdx(0), PlayerIdx(1)]);
}

#[test]
fn unoccupied_cell_records_no_hit() {
    let mut game = two_player_playing_game();
    game.fire(PlayerIdx(0), 4, 4, false, None).unwrap();
    assert!(game.board.data[4][4].uncovered);
    assert!(game.board.data[4][4].hits.is_empty());
}

#[test]
fn last_asset_hit_finishes_two_player_game() {
    let mut game = two_player_playing_game();
    let out = game.fire(PlayerIdx(0), 1, 1, true, Some(PlayerIdx(1))).unwrap();
    assert_eq!(out.eliminated, Some(PlayerIdx(1)));
    assert!(out.finished);
    match &game.state {
        GameState::Finished(fs) => {
            // the eliminated player first, then the sole survivor
            assert_eq!(fs.eliminated_order, vec![PlayerIdx(1), PlayerIdx(0)]);
        }
        other => panic!("expected a finished state, got {:?}", other),
    }
    // the finished game rejects every further mutation
    assert_eq!(
        game.fire(PlayerIdx(0), 1, 2, false, None).unwrap_err(),
        GameError::InvalidState
    );
    assert_eq!(game.add_player("Zoe", "c").unwrap_err(), GameError::InvalidState);
    assert_eq!(game.start_game().unwrap_err(), GameError::InvalidState);
}

#[test]
fn self_elimination_is_recorded() {
    let mut game = two_player_playing_game();
    let out = game.fire(PlayerIdx(0), 0, 0, true, Some(PlayerIdx(0))).unwrap();
    assert_eq!(out.eliminated, Some(PlayerIdx(0)));
    assert!(out.finished);
    match &game.state {
        GameState::Finished(fs) => {
            assert_eq!(fs.eliminated_order, vec![PlayerIdx(0), PlayerIdx(1)]);
        }
        other => panic!("expected a finished state, got {:?}", other),
    }
}

#[test]
fn turn_skips_eliminated_players_and_wraps() {
    let mut game = Game::new(11, 18).unwrap();
    game.add_player("Tim", "c1").unwrap();
    game.add_player("Avi", "c2").unwrap();
    game.add_player("Zoe", "c3").unwrap();
    game.start_game().unwrap();
    // player 0 eliminates player 1: the turn skips 1 and goes to 2
    let out = game.fire(PlayerIdx(0), 1, 1, true, Some(PlayerIdx(1))).unwrap();
    assert_eq!(out.eliminated, Some(PlayerIdx(1)));
    assert!(!out.finished);
    match &game.state {
        GameState::Playing(ps) => {
            assert_eq!(ps.next_turn.0, 2);
            assert_eq!(ps.eliminated_order, vec![PlayerIdx(1)]);
        }
        other => panic!("expected a playing state, got {:?}", other),
    }
    // player 2 fires without effect: the turn wraps past 0's dead peer
    game.fire(PlayerIdx(2), 3, 3, false, None).unwrap();
    match &game.state {
        GameState::Playing(ps) => assert_eq!(ps.next_turn.0, 0),
        other => panic!("expected a playing state, got {:?}", other),
    }
}

#[test]
fn stale_verdict_is_ignored() {
    let mut game = Game::new(11, 18).unwrap();
    game.add_player("Tim", "c1").unwrap();
    game.add_player("Avi", "c2").unwrap();
    game.add_player("Zoe", "c3").unwrap();
    game.start_game().unwrap();
    game.fire(PlayerIdx(0), 1, 1, true, Some(PlayerIdx(1))).unwrap();
    // a verdict naming an already eliminated player changes nothing
    let out = game.fire(PlayerIdx(2), 2, 2, true, Some(PlayerIdx(1))).unwrap();
    assert_eq!(out.eliminated, None);
    match &game.state {
        GameState::Playing(ps) => {
            assert_eq!(ps.eliminated_order, vec![PlayerIdx(1)]);
            assert_eq!(ps.next_turn.0, 0);
        }
        other => panic!("expected a playing state, got {:?}", other),
    }
    // a verdict without a recorded hit changes nothing either
    let out = game.fire(PlayerIdx(0), 2, 5, false, Some(PlayerIdx(2))).unwrap();
    assert_eq!(out.eliminated, None);
}

#[test]
fn player_lookup_by_cookie() {
    let mut game = Game::new(11, 18).unwrap();
    game.add_player("Tim", "cookie1").unwrap();
    game.add_player("Avi", "cookie2").unwrap();
    // a duplicate token resolves to the lowest roster index holding it
    game.add_player("Mallory", "cookie2").unwrap();
    assert_eq!(game.player_by_cookie("cookie1"), Some(PlayerIdx(0)));
    assert_eq!(game.player_by_cookie("cookie2"), Some(PlayerIdx(1)));
    assert_eq!(game.player_by_cookie("unknown"), None);
}

#[test]
fn board_reveal_and_hits() {
    let mut board = Board::new(4, 4).unwrap();
    assert_eq!(board.reveal_cell(1, 2).unwrap(), false);
    assert_eq!(board.reveal_cell(1, 2).unwrap(), true);
    assert_eq!(board.reveal_cell(4, 0).unwrap_err(), GameError::OutOfBounds);
    board.record_hit(1, 2, PlayerIdx(0)).unwrap();
    board.record_hit(1, 2, PlayerIdx(0)).unwrap();
    board.record_hit(1, 2, PlayerIdx(1)).unwrap();
    assert_eq!(
        board.record_hit(0, 9, PlayerIdx(0)).unwrap_err(),
        GameError::OutOfBounds
    );
    let hits = board.cell_hits(1, 2).unwrap();
    assert_eq!(hits, &vec![PlayerIdx(0), PlayerIdx(0), PlayerIdx(1)]);
    assert!(board.cell_hits(0, 0).unwrap().is_empty());
    assert_eq!(board.cell_hits(9, 9).unwrap_err(), GameError::OutOfBounds);
}
