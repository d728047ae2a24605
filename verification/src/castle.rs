//! A player's base: name, fixed position, garrison, peasants, alive flag.

use vstd::prelude::*;

use crate::GameCoord;
use crate::exports::CastleE;
use crate::units::Unit;
use crate::units::UnitGroup;

verus! {

/// A castle owned by one player. The garrison is mutated by combat and
/// troop commitments; the alive flag goes from true to false exactly once,
/// when the castle is out-powered.
#[derive(Debug)]
pub struct Castle {
    pub name: String,
    pub pos: GameCoord,
    pub units: UnitGroup,
    pub peasants: u32,
    pub is_alive: bool,
}

impl Castle {
    /// The garrison is well formed.
    pub open spec fn wf(&self) -> bool {
        self.units.wf()
    }

    /// A new castle at the given position, starting alive with the default
    /// garrison of six knights and two peasants.
    pub fn new(name: String, pos: GameCoord) -> (r: Self)
        ensures
            r.wf(),
            r.name == name,
            r.pos == pos,
            r.units@ == seq![6u16, 0u16, 0u16],
            r.peasants == 2,
            r.is_alive,
    {
        let mut units = UnitGroup::new();
        let peasants: u32 = 2;
        let is_alive = true;

        units.add_single_type(Unit::Knight, 6);
        proof {
            assert(units@ =~= seq![6u16, 0u16, 0u16]);
        }

        Self { name, pos, units, peasants, is_alive }
    }

    /// Snapshot of the castle for export.
    pub fn export(&self) -> (r: CastleE)
        ensures
            r.name == self.name,
            r.pos == self.pos,
            r.is_alive == self.is_alive,
    {
        CastleE { name: self.name.clone(), pos: self.pos, is_alive: self.is_alive }
    }
}

} // verus!
