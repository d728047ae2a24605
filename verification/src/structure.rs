//! A passive world structure with a position and a kind.

use vstd::prelude::*;

use crate::GameCoord;
use crate::exports::StructureE;
use crate::exports::StructureTypeE;

verus! {

/// A passive structure placed on the map.
#[derive(Debug)]
pub struct Structure {
    pub name: String,
    pub kind: StructureTypeE,
    pub pos: GameCoord,
}

impl Structure {
    /// Snapshot of the structure for export.
    pub fn export(&self) -> (r: StructureE)
        ensures
            r.name == self.name,
            r.kind == self.kind,
            r.pos == self.pos,
    {
        StructureE { name: self.name.clone(), kind: self.kind, pos: self.pos }
    }
}

} // verus!
