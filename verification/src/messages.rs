//! The message shapes exchanged between clients, the server front door and
//! the lobbies, as plain values; the wire encoding lives outside the core.

use vstd::prelude::*;

use crate::GameCoord;
use crate::GameID;
use crate::exports::GameObjE;
use crate::exports::PlayerE;
use crate::exports::TileE;
use crate::exports::UnitGroupE;

verus! {

/// Commands a client issues for its lobby.
#[derive(Debug)]
pub enum C2S4L {
    NewCastle(GameCoord),
    AttackCastle(GameID, UnitGroupE),
    SendUnits(GameCoord, UnitGroupE),
    GiveObjs,
    GiveMap,
    GivePlayer,
}

/// Messages a client sends to the server.
#[derive(Debug)]
pub enum C2S {
    C2S4L(C2S4L),
    Login(String),
}

/// Messages a lobby produces, routed through the server, for a client.
#[derive(Debug)]
pub enum L2S4C {
    MapTiles(Vec<Vec<TileE>>),
    GameObjs(Vec<(GameID, GameObjE)>),
    Player(PlayerE),
    CreateCastle,
    Log(String),
}

/// Messages the server sends to a client.
#[derive(Debug)]
pub enum S2C {
    LobbyFound,
    ServerFull,
    ConnectionFailed,
    L2S4C(L2S4C),
}

/// Messages the interface layer produces for the client's network task.
#[derive(Debug)]
pub enum T2C {
    NewCastle(GameCoord),
    AttackCastle(GameID, UnitGroupE),
}

/// Errors of the client application.
#[derive(Debug)]
pub enum ClientErr {
    DataNotReceived,
}

} // verus!
