//! One session: a game wrapped together with the ordered stream of
//! state-change events its successful commands publish.
//!
//! Within one session, commands are applied one at a time; the matching
//! event is appended to the stream before the next command runs, so
//! subscribers draining the stream observe events in exactly the order
//! the mutations were applied.

use crate::game::{
    fire_ok_post, in_bounds_model, lifecycle_rank, opt_idx, FireOutcome, Game, GameError,
    PlayerIdx, PlayerModel, StateModel,
};
use vstd::prelude::*;

verus! {

/// A command addressed to one session's game.
#[derive(Debug, Clone)]
pub enum Action {
    /// Add a player: display name and opaque authentication token.
    AddPlayer(String, String),
    /// Freeze the roster and begin play.
    Start,
    /// One shot by `player` at `(row, col)`.  `occupied` and `verdict`
    /// come from the externally seeded ship placement: whether the cell
    /// holds an opponent's asset, and which player, if any, has now lost
    /// their last asset.
    Fire {
        player: PlayerIdx,
        row: usize,
        col: usize,
        occupied: bool,
        verdict: Option<PlayerIdx>,
    },
}

/// A state-change notification, published once per successful command.
#[derive(Debug, Clone, Copy, PartialEq, Eq, Structural)]
pub enum Event {
    /// A player joined; the payload is the new roster index.
    PlayerAdded(PlayerIdx),
    /// The game started.
    GameStarted,
    /// A shot by the player at the cell changed the board only.
    Fired(PlayerIdx, usize, usize),
    /// The shot eliminated the player.
    Eliminated(PlayerIdx),
    /// The shot finished the game.
    Finished,
}

/// Wire payload of a fire command: the target cell, `x` the row and `y`
/// the column.
#[derive(Debug, Clone, Copy, PartialEq, Eq, Structural)]
pub struct BombPayload {
    pub x: usize,
    pub y: usize,
}

impl BombPayload {
    /// The fire command aimed at this payload's cell.
    pub fn fire_action(self, player: PlayerIdx, occupied: bool, verdict: Option<PlayerIdx>) -> (a:
        Action)
        ensures
            a == (Action::Fire { player, row: self.x, col: self.y, occupied, verdict }),
    {
        Action::Fire { player, row: self.x, col: self.y, occupied, verdict }
    }
}

/// The event a successful shot publishes: the game's end when the shot
/// finished it, an elimination when it caused one, the plain shot
/// otherwise.
pub open spec fn fire_event(out: FireOutcome, player: PlayerIdx, row: usize, col: usize) -> Event {
    if out.finished {
        Event::Finished
    } else {
        match out.eliminated {
            Some(p) => Event::Eliminated(p),
            None => Event::Fired(player, row, col),
        }
    }
}

/// Model of a session: the game's model and the events published so far,
/// oldest first.
#[verifier::ext_equal]
pub struct HandlerModel {
    pub game: crate::game::GameModel,
    pub events: Seq<Event>,
}

/// Wraps one game with the ordered stream of events its successful
/// commands published.  The caller routes every mutation through
/// [`GameHandler::apply`]; subscribers read the stream.
#[derive(Debug, Clone)]
pub struct GameHandler {
    pub game: Game,
    pub events: Vec<Event>,
}

impl View for GameHandler {
    type V = HandlerModel;

    open spec fn view(&self) -> HandlerModel {
        HandlerModel { game: self.game@, events: self.events@ }
    }
}

/// What one `apply` call does: on success the game transitions exactly as
/// the corresponding game operation says and the matching event is
/// appended to the stream; on failure nothing changes and the game's
/// error passes through unchanged.
pub open spec fn apply_post(
    h0: HandlerModel,
    h1: HandlerModel,
    action: Action,
    r: Result<Event, GameError>,
) -> bool {
    &&& (r matches Ok(e) ==> h1.events == h0.events.push(e))
    &&& (r is Err ==> h1.game == h0.game && h1.events == h0.events)
    &&& lifecycle_rank(h0.game.state) <= lifecycle_rank(h1.game.state)
    &&& match action {
        Action::AddPlayer(name, cookie) => {
            if h0.game.state is WaitingForPlayers {
                &&& r == Ok::<Event, GameError>(
                    Event::PlayerAdded(PlayerIdx(h0.game.players.len() as usize)),
                )
                &&& h1.game.players == h0.game.players.push(
                    PlayerModel { name: name@, cookie: cookie@ },
                )
                &&& h1.game.board == h0.game.board
                &&& h1.game.state == h0.game.state
            } else {
                r == Err::<Event, GameError>(GameError::InvalidState)
            }
        },
        Action::Start => {
            if h0.game.state is WaitingForPlayers && h0.game.players.len() >= 2 {
                &&& r == Ok::<Event, GameError>(Event::GameStarted)
                &&& h1.game.state == (StateModel::Playing {
                    next_turn: 0,
                    eliminated_order: Seq::empty(),
                })
                &&& h1.game.players == h0.game.players
                &&& h1.game.board == h0.game.board
            } else if h0.game.state is WaitingForPlayers {
                r == Err::<Event, GameError>(GameError::NotEnoughPlayers)
            } else {
                r == Err::<Event, GameError>(GameError::InvalidState)
            }
        },
        Action::Fire { player, row, col, occupied, verdict } => {
            if !(h0.game.state is Playing) {
                r == Err::<Event, GameError>(GameError::InvalidState)
            } else if player.0 as int != h0.game.state->Playing_next_turn {
                r == Err::<Event, GameError>(GameError::NotYourTurn)
            } else if !in_bounds_model(h0.game.board, row as int, col as int) {
                r == Err::<Event, GameError>(GameError::OutOfBounds)
            } else {
                exists|out: FireOutcome|
                    r == Ok::<Event, GameError>(fire_event(out, player, row, col))
                        && #[trigger] fire_ok_post(
                        h0.game,
                        h1.game,
                        player.0 as int,
                        row as int,
                        col as int,
                        occupied,
                        opt_idx(verdict),
                        out,
                    )
            }
        },
    }
}

impl GameHandler {
    /// Wraps a game; no event has been published yet.
    pub fn new(game: Game) -> (h: GameHandler)
        ensures
            h@.game == game@,
            h@.events == Seq::<Event>::empty(),
    {
        let h = GameHandler { game, events: Vec::new() };
        proof {
            assert(h@.events =~= Seq::<Event>::empty());
        }
        h
    }

    /// Applies one command to the wrapped game and, only on success,
    /// appends the matching event to the stream before returning; a
    /// failed command publishes nothing and leaves the game unchanged.
    pub fn apply(&mut self, action: Action) -> (r: Result<Event, GameError>)
        requires
            old(self).game.wf(),
        ensures
            final(self).game.wf(),
            apply_post(old(self)@, final(self)@, action, r),
    {
        match action {
            Action::AddPlayer(name, cookie) => {
                let idx = self.game.players.len();
                match self.game.add_player(name.as_str(), cookie.as_str()) {
                    Ok(()) => {
                        let e = Event::PlayerAdded(PlayerIdx(idx));
                        self.events.push(e);
                        Ok(e)
                    },
                    Err(err) => Err(err),
                }
            },
            Action::Start => {
                match self.game.start_game() {
                    Ok(()) => {
                        let e = Event::GameStarted;
                        self.events.push(e);
                        Ok(e)
                    },
                    Err(err) => Err(err),
                }
            },
            Action::Fire { player, row, col, occupied, verdict } => {
                match self.game.fire(player, row, col, occupied, verdict) {
                    Ok(out) => {
                        let e = if out.finished {
                            Event::Finished
                        } else {
                            match out.eliminated {
                                Some(p) => Event::Eliminated(p),
                                None => Event::Fired(player, row, col),
                            }
                        };
                        self.events.push(e);
                        proof {
                            assert(e == fire_event(out, player, row, col));
                        }
                        Ok(e)
                    },
                    Err(err) => Err(err),
                }
            },
        }
    }
}

/// Law: two commands applied in order publish their events in that same
/// order — a subscriber draining the stream sees the first command's
/// event strictly before the second's, never the reverse.
pub proof fn lemma_events_in_order(
    h0: HandlerModel,
    h1: HandlerModel,
    h2: HandlerModel,
    a1: Action,
    a2: Action,
    e1: Event,
    e2: Event,
)
    requires
        apply_post(h0, h1, a1, Ok(e1)),
        apply_post(h1, h2, a2, Ok(e2)),
    ensures
        h2.events == h0.events.push(e1).push(e2),
        h2.events.len() == h0.events.len() + 2,
        h2.events[h0.events.len() as int] == e1,
        h2.events[h0.events.len() as int + 1] == e2,
{
}

} // verus!
