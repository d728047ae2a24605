//! Server-side simulation core of a session-based multiplayer strategy game:
//! a procedurally generated obstacle map with point-to-point pathfinding,
//! unit-group arithmetic, a deployed-units movement state machine, per-session
//! game orchestration, and lobby assignment.

use vstd::prelude::*;

pub mod castle;
pub mod exports;
pub mod game;
pub mod game_obj;
pub mod grid;
pub mod lobby;
pub mod map;
pub mod messages;
pub mod pathfinding;
pub mod player;
pub mod server;
pub mod structure;
pub mod term;
pub mod units;

verus! {

/// Number of rows of the generated map grid.
pub const MAP_ROWS: usize = 512;

/// Number of columns of the generated map grid.
pub const MAP_COLS: usize = 512;

/// Number of players one game session can hold.
pub const MAX_LOBBY_PLAYERS: usize = 2;

/// Number of game sessions the session pool can hold.
pub const MAX_LOBBIES: usize = 2;

/// Process-unique handle for a game object, assigned monotonically and never
/// reused while referenced.
pub type GameID = usize;

/// An integer grid position on the map.
#[derive(Clone, Copy, Debug, PartialEq, Eq, Structural)]
pub struct GameCoord {
    pub x: usize,
    pub y: usize,
}

} // verus!
