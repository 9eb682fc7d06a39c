//! A server-hosted multiplayer grid battle game engine.
//!
//! The library is split in three layers, leaves first:
//! - [`game`]: the board (a grid of cells with hit tracking) and the game
//!   state machine (`WaitingForPlayers` / `Playing` / `Finished`) with its
//!   mutating operations (add a player, start, fire).
//! - [`session`]: a handler wrapping one game together with the ordered
//!   stream of state-change events its mutations publish.
//! - [`registry`]: a table of independent sessions, keyed by a fresh
//!   numeric identifier, through which callers create, list, fetch and
//!   mutate sessions.

pub mod game;
pub mod registry;
pub mod session;
