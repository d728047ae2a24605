//! Per-connection player record: display name, optional castle binding,
//! and lifecycle status.

use vstd::prelude::*;

use crate::GameID;

verus! {

/// Lifecycle of a player inside a session.
#[derive(Clone, Copy, Debug, PartialEq, Eq, Structural)]
pub enum PlayerStatus {
    Alive,
    Dead,
    Init,
    Disconnected,
}

/// One player of a session. A player is alive only once a castle has been
/// bound to them.
#[derive(Debug)]
pub struct Player {
    pub name: String,
    pub castle_id: Option<GameID>,
    pub status: PlayerStatus,
}

impl Player {
    /// An alive player always has a castle bound.
    pub open spec fn wf(&self) -> bool {
        self.status is Alive ==> self.castle_id is Some
    }

    /// A freshly connected player: no castle yet, waiting to place one.
    pub fn new(name: String) -> (r: Self)
        ensures
            r.wf(),
            r.name == name,
            r.castle_id is None,
            r.status is Init,
    {
        Self { name, castle_id: None, status: PlayerStatus::Init }
    }

    /// Bind a newly created castle to the player, making them alive.
    pub fn set_castle_id(&mut self, castle_id: GameID)
        ensures
            final(self).wf(),
            final(self).name == old(self).name,
            final(self).castle_id == Some(castle_id),
            final(self).status is Alive,
    {
        self.castle_id = Some(castle_id);
        self.status = PlayerStatus::Alive;
    }
}

} // verus!
