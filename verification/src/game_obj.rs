//! The closed union of everything the game simulates: castles, passive
//! structures, and unit groups in transit.

use vstd::prelude::*;

use crate::GameCoord;
use crate::GameID;
use crate::castle::Castle;
use crate::exports::CastleE;
use crate::exports::DeployedUnitsE;
use crate::exports::GameObjE;
use crate::exports::StructureE;
use crate::exports::StructureTypeE;
use crate::structure::Structure;
use crate::units::DeployedUnits;

verus! {

/// Any simulated entity with a position.
#[derive(Debug)]
pub enum GameObj {
    Castle(Castle),
    Structure(Structure),
    DeployedUnits(DeployedUnits),
}

impl GameObj {
    /// The held object is well formed.
    pub open spec fn wf(&self) -> bool {
        match *self {
            GameObj::Castle(c) => c.wf(),
            GameObj::Structure(_) => true,
            GameObj::DeployedUnits(d) => d.wf(),
        }
    }

    /// The exported view of the object, as a spec value.
    pub open spec fn spec_export(&self) -> GameObjE {
        match *self {
            GameObj::Castle(c) => GameObjE::Castle(
                CastleE { name: c.name, pos: c.pos, is_alive: c.is_alive },
            ),
            GameObj::Structure(s) => GameObjE::Structure(
                StructureE { name: s.name, kind: s.kind, pos: s.pos },
            ),
            GameObj::DeployedUnits(d) => GameObjE::DeployedUnits(
                DeployedUnitsE { owner_id: d.owner_id, pos: d.path@[d.path_index as int] },
            ),
        }
    }

    /// Snapshot of the object for export.
    pub fn export(&self) -> (r: GameObjE)
        requires
            self.wf(),
        ensures
            r == self.spec_export(),
    {
        match self {
            Self::Castle(castle) => GameObjE::Castle(castle.export()),
            Self::Structure(structure) => GameObjE::Structure(structure.export()),
            Self::DeployedUnits(deployed_units) => GameObjE::DeployedUnits(deployed_units.export()),
        }
    }
}

/// Spec-level view of a castle: every field as a mathematical value.
#[verifier::ext_equal]
pub struct CastleView {
    pub name: Seq<char>,
    pub pos: GameCoord,
    pub units: Seq<u16>,
    pub peasants: u32,
    pub is_alive: bool,
}

/// Spec-level view of a passive structure.
#[verifier::ext_equal]
pub struct StructureView {
    pub name: Seq<char>,
    pub kind: StructureTypeE,
    pub pos: GameCoord,
}

/// Spec-level view of a deployed-units agent.
#[verifier::ext_equal]
pub struct DeployedUnitsView {
    pub owner_id: GameID,
    pub target_id: Option<GameID>,
    pub returning: bool,
    pub path: Seq<GameCoord>,
    pub path_index: int,
    pub units: Seq<u16>,
}

impl DeployedUnitsView {
    /// The agent sits at the terminal end of its path for its direction.
    pub open spec fn pending(&self) -> bool {
        (self.returning && self.path_index == 0) || (!self.returning && self.path_index
            >= self.path.len() - 1)
    }

    /// One movement tick: the index advances or recedes by one, clamped to
    /// the path's bounds.
    pub open spec fn moved(self) -> Self {
        let next = if self.returning {
            if self.path_index > 0 {
                self.path_index - 1
            } else {
                0
            }
        } else {
            if self.path_index + 1 < self.path.len() {
                self.path_index + 1
            } else {
                self.path_index
            }
        };
        Self { path_index: next, ..self }
    }
}

/// Spec-level view of any game object.
#[verifier::ext_equal]
pub enum GameObjView {
    Castle(CastleView),
    Structure(StructureView),
    DeployedUnits(DeployedUnitsView),
}

impl View for Castle {
    type V = CastleView;

    open spec fn view(&self) -> CastleView {
        CastleView {
            name: self.name@,
            pos: self.pos,
            units: self.units@,
            peasants: self.peasants,
            is_alive: self.is_alive,
        }
    }
}

impl View for Structure {
    type V = StructureView;

    open spec fn view(&self) -> StructureView {
        StructureView { name: self.name@, kind: self.kind, pos: self.pos }
    }
}

impl View for DeployedUnits {
    type V = DeployedUnitsView;

    open spec fn view(&self) -> DeployedUnitsView {
        DeployedUnitsView {
            owner_id: self.owner_id,
            target_id: self.target_id,
            returning: self.returning,
            path: self.path@,
            path_index: self.path_index as int,
            units: self.unit_group@,
        }
    }
}

impl View for GameObj {
    type V = GameObjView;

    open spec fn view(&self) -> GameObjView {
        match *self {
            GameObj::Castle(c) => GameObjView::Castle(c@),
            GameObj::Structure(s) => GameObjView::Structure(s@),
            GameObj::DeployedUnits(d) => GameObjView::DeployedUnits(d@),
        }
    }
}

} // verus!
