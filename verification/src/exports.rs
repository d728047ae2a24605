//! Snapshot types the core exports to the rendering/network layer: plain
//! values with position and display fields only.

use vstd::prelude::*;

use crate::GameCoord;
use crate::GameID;

verus! {

/// A terrain cell of the map grid.
#[derive(Clone, Copy, Debug, PartialEq, Eq, Structural)]
pub enum TileE {
    Water,
    Grass,
    Woods,
}

/// Exported view of a unit type.
#[derive(Clone, Copy, Debug, PartialEq, Eq, Structural)]
pub enum UnitE {
    Knight,
    Mage,
    Dragon,
}

impl UnitE {
    /// Index of this unit type inside an exported quantity vector.
    pub fn as_index(&self) -> (r: usize)
        ensures
            r == match *self {
                UnitE::Knight => 0int,
                UnitE::Mage => 1int,
                UnitE::Dragon => 2int,
            },
    {
        match self {
            Self::Knight => 0,
            Self::Mage => 1,
            Self::Dragon => 2,
        }
    }
}

/// Exported per-type unit counts of a group.
#[derive(Clone, Debug)]
pub struct UnitGroupE {
    pub quantities: Vec<u16>,
}

impl UnitGroupE {
    /// A placeholder snapshot: no units of any type.
    pub fn undef() -> (r: Self)
        ensures
            r.quantities@ == seq![0u16, 0u16, 0u16],
    {
        let quantities = vec![0u16, 0u16, 0u16];
        proof {
            assert(quantities@ == seq![0u16, 0u16, 0u16]);
        }
        Self { quantities }
    }
}

/// Exported view of a castle.
#[derive(Clone, Debug)]
pub struct CastleE {
    pub name: String,
    pub pos: GameCoord,
    pub is_alive: bool,
}

/// The kinds of passive structures.
#[derive(Clone, Copy, Debug, PartialEq, Eq, Structural)]
pub enum StructureTypeE {
    Farm,
}

/// Exported view of a passive structure.
#[derive(Clone, Debug)]
pub struct StructureE {
    pub name: String,
    pub kind: StructureTypeE,
    pub pos: GameCoord,
}

/// Exported view of a deployed unit group in transit.
#[derive(Clone, Debug)]
pub struct DeployedUnitsE {
    pub owner_id: GameID,
    pub pos: GameCoord,
}

/// Exported view of any game object.
#[derive(Clone, Debug)]
pub enum GameObjE {
    Castle(CastleE),
    Structure(StructureE),
    DeployedUnits(DeployedUnitsE),
}

impl GameObjE {
    /// The map position of the exported object.
    pub fn get_pos(&self) -> (r: GameCoord)
        ensures
            r == match *self {
                GameObjE::Castle(c) => c.pos,
                GameObjE::Structure(s) => s.pos,
                GameObjE::DeployedUnits(u) => u.pos,
            },
    {
        match self {
            GameObjE::Castle(c) => c.pos,
            GameObjE::Structure(s) => s.pos,
            GameObjE::DeployedUnits(u) => u.pos,
        }
    }
}

/// Exported per-player view: the player's castle data.
#[derive(Clone, Debug)]
pub struct PlayerE {
    pub id: usize,
    pub name: String,
    pub pos: GameCoord,
    pub units: UnitGroupE,
    pub peasants: u32,
}

impl PlayerE {
    /// A placeholder view for a player whose castle cannot be resolved.
    pub fn undef() -> (r: Self)
        ensures
            r.id == 0,
            r.name@ == "undefined"@,
            r.pos == (GameCoord { x: 0, y: 0 }),
            r.units.quantities@ == seq![0u16, 0u16, 0u16],
            r.peasants == 0,
    {
        Self {
            id: 0,
            name: "undefined".to_owned(),
            pos: GameCoord { x: 0, y: 0 },
            units: UnitGroupE::undef(),
            peasants: 0,
        }
    }
}

} // verus!
