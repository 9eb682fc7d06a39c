use battleship::game::{Game, GameError, GameState, PlayerIdx};
use battleship::registry::Registry;
use battleship::session::{Action, BombPayload, Event, GameHandler};

fn add(name: &str, cookie: &str) -> Action {
    Action::AddPlayer(name.to_string(), cookie.to_string())
}

fn shot(player: usize, row: usize, col: usize) -> Action {
    Action::Fire { player: PlayerIdx(player), row, col, occupied: false, verdict: None }
}

#[test]
fn handler_publishes_events_in_application_order() {
    let mut handler = GameHandler::new(Game::new(11, 18).unwrap());
    assert!(handler.events.is_empty());
    let e1 = handler.apply(add("Tim", "cookie1")).unwrap();
    let e2 = handler.apply(add("Avi", "cookie2")).unwrap();
    let e3 = handler.apply(Action::Start).unwrap();
    let e4 = handler.apply(shot(0, 5, 5)).unwrap();
    assert_eq!(e1, Event::PlayerAdded(PlayerIdx(0)));
    assert_eq!(e2, Event::PlayerAdded(PlayerIdx(1)));
    assert_eq!(e3, Event::GameStarted);
    assert_eq!(e4, Event::Fired(PlayerIdx(0), 5, 5));
    // the stream holds exactly those events, oldest first
    assert_eq!(handler.events, vec![e1, e2, e3, e4]);
}

#[test]
fn failed_command_publishes_nothing() {
    let mut handler = GameHandler::new(Game::new(11, 18).unwrap());
    handler.apply(add("Tim", "cookie1")).unwrap();
    // starting with one player fails and leaves the stream untouched
    assert_eq!(handler.apply(Action::Start).unwrap_err(), GameError::NotEnoughPlayers);
    // firing before the start fails too
    assert_eq!(handler.apply(shot(0, 0, 0)).unwrap_err(), GameError::InvalidState);
    assert_eq!(handler.events, vec![Event::PlayerAdded(PlayerIdx(0))]);
    assert!(matches!(handler.game.state, GameState::WaitingForPlayers));
}

#[test]
fn elimination_and_finish_events() {
    let mut handler = GameHandler::new(Game::new(11, 18).unwrap());
    handler.apply(add("Tim", "c1")).unwrap();
    handler.apply(add("Avi", "c2")).unwrap();
    handler.apply(add("Zoe", "c3")).unwrap();
    handler.apply(Action::Start).unwrap();
    let e = handler
        .apply(Action::Fire {
            player: PlayerIdx(0),
            row: 1,
            col: 1,
            occupied: true,
            verdict: Some(PlayerIdx(1)),
        })
        .unwrap();
    assert_eq!(e, Event::Eliminated(PlayerIdx(1)));
    let e = handler
        .apply(Action::Fire {
            player: PlayerIdx(2),
            row: 2,
            col: 2,
            occupied: true,
            verdict: Some(PlayerIdx(0)),
        })
        .unwrap();
    assert_eq!(e, Event::Finished);
    assert!(matches!(handler.game.state, GameState::Finished(_)));
}

#[test]
fn bomb_payload_builds_a_fire_command() {
    let payload = BombPayload { x: 3, y: 7 };
    let action = payload.fire_action(PlayerIdx(0), false, None);
    match action {
        Action::Fire { player, row, col, occupied, verdict } => {
            assert_eq!(player, PlayerIdx(0));
            assert_eq!(row, 3);
            assert_eq!(col, 7);
            assert!(!occupied);
            assert_eq!(verdict, None);
        }
        other => panic!("expected a fire command, got {:?}", other),
    }
}

#[test]
fn registry_creates_lists_and_fetches() {
    let mut registry = Registry::new();
    assert!(registry.list_sessions().is_empty());
    let a = registry.create_session(11, 18).unwrap();
    let b = registry.create_session(11, 18).unwrap();
    assert_ne!(a, b);
    assert_eq!(registry.list_sessions(), vec![a, b]);
    let handler = registry.get_session(a).unwrap();
    assert!(matches!(handler.game.state, GameState::WaitingForPlayers));
    assert_eq!(handler.game.board.height, 11);
    assert_eq!(handler.game.board.width, 18);
    assert_eq!(registry.get_session(a + 100).unwrap_err(), GameError::NotFound);
    assert_eq!(
        registry.create_session(0, 18).unwrap_err(),
        GameError::InvalidDimensions
    );
    assert_eq!(registry.list_sessions(), vec![a, b]);
}

#[test]
fn registry_removes_sessions() {
    let mut registry = Registry::new();
    let a = registry.create_session(11, 18).unwrap();
    let b = registry.create_session(11, 18).unwrap();
    registry.remove_session(a).unwrap();
    assert_eq!(registry.get_session(a).unwrap_err(), GameError::NotFound);
    assert_eq!(registry.remove_session(a).unwrap_err(), GameError::NotFound);
    assert_eq!(registry.list_sessions(), vec![b]);
    // a removed identifier is never reissued
    let c = registry.create_session(11, 18).unwrap();
    assert_ne!(c, a);
    assert_ne!(c, b);
}

#[test]
fn registry_routes_commands_to_one_session() {
    let mut registry = Registry::new();
    let a = registry.create_session(11, 18).unwrap();
    let b = registry.create_session(11, 18).unwrap();
    registry.apply(a, add("Tim", "cookie1")).unwrap();
    registry.apply(a, add("Avi", "cookie2")).unwrap();
    let e = registry.apply(a, Action::Start).unwrap();
    assert_eq!(e, Event::GameStarted);
    assert_eq!(registry.apply(b, Action::Start).unwrap_err(), GameError::NotEnoughPlayers);
    assert_eq!(
        registry.apply(a + 100, Action::Start).unwrap_err(),
        GameError::NotFound
    );
    // only session `a` moved; session `b` is still waiting
    assert!(matches!(
        registry.get_session(a).unwrap().game.state,
        GameState::Playing(_)
    ));
    assert!(matches!(
        registry.get_session(b).unwrap().game.state,
        GameState::WaitingForPlayers
    ));
    assert_eq!(registry.get_session(b).unwrap().events.len(), 0);
    assert_eq!(registry.get_session(a).unwrap().events.len(), 3);
}
