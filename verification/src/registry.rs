//! The session registry: the sole entry point through which callers
//! create, list, fetch, mutate and remove game sessions.
//!
//! Identifiers are issued from a counter, so every identifier is fresh:
//! it never collides with a live session, nor with a removed one.  The
//! registry is purely in-memory; it holds no concurrency control of its
//! own and is meant to be owned behind whatever exclusive-access
//! discipline the surrounding process uses.

use crate::game::{fresh_board, Game, GameError, StateModel};
use crate::session::{apply_post, Action, Event, GameHandler};
use vstd::prelude::*;

verus! {

/// The table of live sessions, in creation order.
pub struct Registry {
    /// The next identifier to issue; every stored identifier is below it.
    pub next_id: u64,
    /// The live sessions: identifier and handler, in creation order.
    pub sessions: Vec<(u64, GameHandler)>,
}

impl Registry {
    /// The stored identifiers, in creation order.
    pub open spec fn ids(&self) -> Seq<int> {
        self.sessions@.map_values(|t: (u64, GameHandler)| t.0 as int)
    }

    /// Whether a session with identifier `id` is present.
    pub open spec fn has(&self, id: int) -> bool {
        self.ids().contains(id)
    }

    /// Identifiers are unique and below the counter, and every stored
    /// game satisfies the game invariant.
    pub open spec fn wf(&self) -> bool {
        &&& self.ids().no_duplicates()
        &&& forall|k: int|
            0 <= k < self.sessions@.len() ==> (#[trigger] self.sessions@[k]).0 < self.next_id
        &&& forall|k: int|
            0 <= k < self.sessions@.len() ==> (#[trigger] self.sessions@[k]).1.game.wf()
    }

    /// An empty registry.
    pub fn new() -> (r: Registry)
        ensures
            r.wf(),
            r.sessions@.len() == 0,
            r.next_id == 0,
    {
        let r = Registry { next_id: 0, sessions: Vec::new() };
        proof {
            assert(r.ids() =~= Seq::<int>::empty());
        }
        r
    }

    /// Allocates a new waiting game over a fresh board of the given
    /// dimensions, wraps it in a handler, stores it under a fresh
    /// identifier, and returns the identifier.  Only bad dimensions are
    /// refused; the bound on the counter is a machine limit.
    pub fn create_session(&mut self, height: i32, width: i32) -> (r: Result<u64, GameError>)
        requires
            old(self).wf(),
            old(self).next_id < u64::MAX,
        ensures
            final(self).wf(),
            height > 0 && width > 0 ==> (r matches Ok(id) && id == old(self).next_id
                && !old(self).has(id as int) && final(self).has(id as int)
                && final(self).next_id == old(self).next_id + 1
                && final(self).sessions@.len() == old(self).sessions@.len() + 1
                && final(self).sessions@.subrange(0, old(self).sessions@.len() as int)
                == old(self).sessions@ && final(self).sessions@.last().0 == id
                && final(self).sessions@.last().1@.game.players.len() == 0
                && final(self).sessions@.last().1@.game.state == StateModel::WaitingForPlayers
                && fresh_board(
                final(self).sessions@.last().1@.game.board,
                height as int,
                width as int,
            ) && final(self).sessions@.last().1@.events == Seq::<Event>::empty()),
            !(height > 0 && width > 0) ==> r == Err::<u64, GameError>(GameError::InvalidDimensions)
                && final(self).sessions@ == old(self).sessions@
                && final(self).next_id == old(self).next_id,
    {
        let game = match Game::new(height, width) {
            Ok(g) => g,
            Err(e) => {
                return Err(e);
            },
        };
        let id = self.next_id;
        self.next_id = self.next_id + 1;
        self.sessions.push((id, GameHandler::new(game)));
        proof {
            assert(self.ids() =~= old(self).ids().push(id as int));
            assert(!old(self).has(id as int)) by {
                if old(self).ids().contains(id as int) {
                    let k = choose|k: int|
                        0 <= k < old(self).ids().len() && old(self).ids()[k] == id as int;
                    assert(old(self).sessions@[k].0 < id);
                }
            }
            let ids1 = self.ids();
            assert(ids1.no_duplicates()) by {
                assert forall|i: int, j: int|
                    0 <= i < ids1.len() && 0 <= j < ids1.len() && i != j implies ids1[i]
                    != ids1[j] by {
                    if i < ids1.len() - 1 && j < ids1.len() - 1 {
                        assert(old(self).ids()[i] != old(self).ids()[j]);
                    } else if i < ids1.len() - 1 {
                        assert(old(self).sessions@[i].0 < id);
                    } else if j < ids1.len() - 1 {
                        assert(old(self).sessions@[j].0 < id);
                    }
                }
            }
            assert(ids1.contains(id as int)) by {
                assert(ids1[ids1.len() - 1] == id as int);
            }
            assert(self.sessions@.subrange(0, old(self).sessions@.len() as int)
                =~= old(self).sessions@);
        }
        Ok(id)
    }

    /// The identifiers of all live sessions, in creation order.
    pub fn list_sessions(&self) -> (ids: Vec<u64>)
        ensures
            ids@.len() == self.ids().len(),
            forall|k: int| 0 <= k < ids@.len() ==> (#[trigger] ids@[k]) as int == self.ids()[k],
    {
        let mut ids: Vec<u64> = Vec::new();
        let mut i: usize = 0;
        while i < self.sessions.len()
            invariant
                i <= self.sessions@.len(),
                ids@.len() == i as int,
                forall|k: int| 0 <= k < i as int ==> (#[trigger] ids@[k]) as int == self.ids()[k],
            decreases self.sessions@.len() - i,
        {
            ids.push(self.sessions[i].0);
            i = i + 1;
        }
        ids
    }

    /// Fetches the handler of the session with identifier `id`; absent
    /// identifiers are refused with `NotFound`.
    pub fn get_session(&self, id: u64) -> (r: Result<&GameHandler, GameError>)
        requires
            self.wf(),
        ensures
            self.has(id as int) ==> (r matches Ok(h) && exists|k: int|
                0 <= k < self.sessions@.len() && (#[trigger] self.sessions@[k]).0 == id && h@
                    == self.sessions@[k].1@),
            !self.has(id as int) ==> r == Err::<&GameHandler, GameError>(GameError::NotFound),
    {
        let mut i: usize = 0;
        while i < self.sessions.len()
            invariant
                i <= self.sessions@.len(),
                forall|k: int| 0 <= k < i as int ==> (#[trigger] self.sessions@[k]).0 != id,
            decreases self.sessions@.len() - i,
        {
            if self.sessions[i].0 == id {
                proof {
                    assert(self.ids()[i as int] == id as int);
                }
                return Ok(&self.sessions[i].1);
            }
            i = i + 1;
        }
        proof {
            if self.has(id as int) {
                let k = choose|k: int|
                    0 <= k < self.ids().len() && self.ids()[k] == id as int;
                assert(self.sessions@[k].0 == id);
            }
        }
        Err(GameError::NotFound)
    }

    /// Deletes the session with identifier `id`; later lookups of that
    /// identifier fail with `NotFound`, other sessions are kept in order.
    pub fn remove_session(&mut self, id: u64) -> (r: Result<(), GameError>)
        requires
            old(self).wf(),
        ensures
            final(self).wf(),
            final(self).next_id == old(self).next_id,
            old(self).has(id as int) ==> (r == Ok::<(), GameError>(()) && !final(self).has(
                id as int,
            ) && exists|k: int|
                0 <= k < old(self).sessions@.len() && (#[trigger] old(self).sessions@[k]).0 == id
                    && final(self).sessions@ == old(self).sessions@.remove(k)),
            !old(self).has(id as int) ==> r == Err::<(), GameError>(GameError::NotFound)
                && final(self).sessions@ == old(self).sessions@,
    {
        let mut i: usize = 0;
        while i < self.sessions.len()
            invariant
                i <= self.sessions@.len(),
                *self == *old(self),
                self.wf(),
                forall|k: int| 0 <= k < i as int ==> (#[trigger] self.sessions@[k]).0 != id,
            decreases self.sessions@.len() - i,
        {
            if self.sessions[i].0 == id {
                proof {
                    assert(self.ids()[i as int] == id as int);
                }
                self.sessions.remove(i);
                proof {
                    let i_i = i as int;
                    assert(self.ids() =~= old(self).ids().remove(i_i));
                    let ids1 = self.ids();
                    let ids0 = old(self).ids();
                    assert(ids1.no_duplicates()) by {
                        assert forall|a: int, b: int|
                            0 <= a < ids1.len() && 0 <= b < ids1.len() && a != b implies ids1[a]
                            != ids1[b] by {
                            let a0 = if a < i_i {
                                a
                            } else {
                                a + 1
                            };
                            let b0 = if b < i_i {
                                b
                            } else {
                                b + 1
                            };
                            assert(ids1[a] == ids0[a0] && ids1[b] == ids0[b0]);
                            assert(ids0[a0] != ids0[b0]);
                        }
                    }
                    assert(!self.has(id as int)) by {
                        if ids1.contains(id as int) {
                            let k = choose|k: int| 0 <= k < ids1.len() && ids1[k] == id as int;
                            let k0 = if k < i_i {
                                k
                            } else {
                                k + 1
                            };
                            assert(ids0[k0] == id as int && ids0[i_i] == id as int && k0 != i_i);
                        }
                    }
                }
                return Ok(());
            }
            i = i + 1;
        }
        proof {
            if self.has(id as int) {
                let k = choose|k: int|
                    0 <= k < self.ids().len() && self.ids()[k] == id as int;
                assert(self.sessions@[k].0 == id);
            }
        }
        Err(GameError::NotFound)
    }

    /// Routes one command to the session with identifier `id`: the
    /// command is applied to that session's game and, on success, the
    /// matching event is appended to that session's stream and returned;
    /// no other session is touched.  Unknown identifiers are refused with
    /// `NotFound`.
    pub fn apply(&mut self, id: u64, action: Action) -> (r: Result<Event, GameError>)
        requires
            old(self).wf(),
        ensures
            final(self).wf(),
            final(self).next_id == old(self).next_id,
            !old(self).has(id as int) ==> r == Err::<Event, GameError>(GameError::NotFound)
                && final(self).sessions@ == old(self).sessions@,
            old(self).has(id as int) ==> (exists|k: int, h1: GameHandler|
                0 <= k < old(self).sessions@.len() && (#[trigger] old(self).sessions@[k]).0 == id
                    && final(self).sessions@ == old(self).sessions@.update(k, (id, h1))
                    && #[trigger] apply_post(old(self).sessions@[k].1@, h1@, action, r)),
    {
        let mut i: usize = 0;
        while i < self.sessions.len()
            invariant
                i <= self.sessions@.len(),
                *self == *old(self),
                self.wf(),
                forall|k: int| 0 <= k < i as int ==> (#[trigger] self.sessions@[k]).0 != id,
            decreases self.sessions@.len() - i,
        {
            if self.sessions[i].0 == id {
                proof {
                    assert(self.ids()[i as int] == id as int);
                }
                let (sid, mut h) = self.sessions.remove(i);
                let res = h.apply(action);
                self.sessions.insert(i, (sid, h));
                proof {
                    let i_i = i as int;
                    assert(self.sessions@ =~= old(self).sessions@.update(i_i, (id, h)));
                    assert(self.ids() =~= old(self).ids());
                }
                return res;
            }
            i = i + 1;
        }
        proof {
            if self.has(id as int) {
                let k = choose|k: int|
                    0 <= k < self.ids().len() && self.ids()[k] == id as int;
                assert(self.sessions@[k].0 == id);
            }
        }
        Err(GameError::NotFound)
    }
}

} // verus!
