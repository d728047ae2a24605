//! Unit types, unit-group arithmetic with a presence bitmask, and the
//! deployed-units movement state machine.

use vstd::prelude::*;

use crate::GameCoord;
use crate::GameID;
use crate::exports::DeployedUnitsE;
use crate::exports::UnitGroupE;
use std::collections::VecDeque;

verus! {

/// Number of distinct unit types a group can hold.
pub const UNIT_TYPE_COUNT: usize = 3;

/// A kind of combat unit.
#[derive(Clone, Copy, Debug, PartialEq, Eq, Structural)]
pub enum Unit {
    Knight,
    Mage,
    Dragon,
}

/// Index of a unit type inside a group's quantity vector.
pub open spec fn spec_unit_index(u: Unit) -> int {
    match u {
        Unit::Knight => 0,
        Unit::Mage => 1,
        Unit::Dragon => 2,
    }
}

/// Presence-mask bit of a unit type.
pub open spec fn spec_unit_mask(u: Unit) -> u8 {
    match u {
        Unit::Knight => 1,
        Unit::Mage => 2,
        Unit::Dragon => 4,
    }
}

impl Unit {
    /// Index of this unit type inside a group's quantity vector.
    pub fn as_index(&self) -> (r: usize)
        ensures
            r == spec_unit_index(*self),
    {
        match self {
            Self::Knight => 0,
            Self::Mage => 1,
            Self::Dragon => 2,
        }
    }

    /// The unit type at a given index, if any.
    pub fn form_index(i: usize) -> (r: Option<Self>)
        ensures
            i < UNIT_TYPE_COUNT ==> r is Some && spec_unit_index(r->0) == i,
            i >= UNIT_TYPE_COUNT ==> r is None,
    {
        match i {
            0 => Some(Self::Knight),
            1 => Some(Self::Mage),
            2 => Some(Self::Dragon),
            _ => None,
        }
    }

    /// Single-bit mask marking this unit type as present.
    pub fn as_mask(&self) -> (r: u8)
        ensures
            r == spec_unit_mask(*self),
    {
        match self {
            Self::Knight => 1,
            Self::Mage => 2,
            Self::Dragon => 4,
        }
    }
}

/// Saturating sum of two per-type counts.
pub open spec fn spec_sat_add(a: u16, b: u16) -> u16 {
    if a + b > u16::MAX {
        u16::MAX
    } else {
        (a + b) as u16
    }
}

/// Saturating difference of two per-type counts.
pub open spec fn spec_sat_sub(a: u16, b: u16) -> u16 {
    if a - b < 0 {
        0u16
    } else {
        (a - b) as u16
    }
}

/// Placeholder strength scalar: the sum of counts across the group's unit
/// types, not a tactical model.
pub open spec fn spec_strength(q: Seq<u16>) -> u32
    recommends
        q.len() == UNIT_TYPE_COUNT,
{
    (q[0] + q[1] + q[2]) as u32
}

/// True when `a` holds at least as many units of every type as `b`.
pub open spec fn spec_has_enough(a: Seq<u16>, b: Seq<u16>) -> bool
    recommends
        a.len() == UNIT_TYPE_COUNT,
        b.len() == UNIT_TYPE_COUNT,
{
    forall|i: int| 0 <= i < UNIT_TYPE_COUNT ==> a[i] >= b[i]
}

/// A fixed-size vector of per-type unit counts plus a presence bitmask.
///
/// The mask caches, for every unit type, whether any units of that type are
/// present; it must always agree with the quantity vector.
#[derive(Clone, Debug)]
pub struct UnitGroup {
    pub quantities: Vec<u16>,
    pub present_mask: u8,
}

impl View for UnitGroup {
    type V = Seq<u16>;

    open spec fn view(&self) -> Seq<u16> {
        self.quantities@
    }
}

impl UnitGroup {
    /// Mask bit i is set iff the count of unit type i is positive.
    pub open spec fn wf(&self) -> bool {
        &&& self.quantities@.len() == UNIT_TYPE_COUNT
        &&& self.present_mask < 8
        &&& (self.present_mask & 1 != 0) == (self.quantities@[0] > 0)
        &&& (self.present_mask & 2 != 0) == (self.quantities@[1] > 0)
        &&& (self.present_mask & 4 != 0) == (self.quantities@[2] > 0)
    }

    /// An empty group: no units of any type.
    pub fn new() -> (r: Self)
        ensures
            r.wf(),
            r@ == seq![0u16, 0u16, 0u16],
    {
        let quantities = vec![0u16, 0u16, 0u16];
        let present_mask = 0u8;
        proof {
            assert(quantities@ == seq![0u16, 0u16, 0u16]);
            assert(0u8 & 1 == 0 && 0u8 & 2 == 0 && 0u8 & 4 == 0) by (bit_vector);
        }
        Self { quantities, present_mask }
    }

    /// Strength of the group: the sum of counts across its unit types.
    pub fn get_strength(&self) -> (r: u32)
        requires
            self.wf(),
        ensures
            r == spec_strength(self@),
    {
        let mut str: u32 = 0;
        str = str + self.quantities[0] as u32;
        str = str + self.quantities[1] as u32;
        str = str + self.quantities[2] as u32;
        str
    }

    /// Add `count` units of one type, clamping at the largest representable
    /// count, and mark the type present if its count became positive.
    pub fn add_single_type(&mut self, unit: Unit, count: u16)
        requires
            old(self).wf(),
        ensures
            final(self).wf(),
            final(self)@ == old(self)@.update(
                spec_unit_index(unit),
                spec_sat_add(old(self)@[spec_unit_index(unit)], count),
            ),
    {
        let idx = unit.as_index();
        let new_q = self.quantities[idx].saturating_add(count);
        self.quantities[idx] = new_q;

        if new_q > 0 {
            let m = self.present_mask;
            let b = unit.as_mask();
            self.present_mask = m | b;
            proof {
                lemma_mask_or(m, b);
            }
        }
    }

    /// Remove `count` units of one type, clamping at zero, and mark the type
    /// absent if its count became zero.
    pub fn subtract_single_type(&mut self, unit: Unit, count: u16)
        requires
            old(self).wf(),
        ensures
            final(self).wf(),
            final(self)@ == old(self)@.update(
                spec_unit_index(unit),
                spec_sat_sub(old(self)@[spec_unit_index(unit)], count),
            ),
    {
        let idx = unit.as_index();
        let new_q = self.quantities[idx].saturating_sub(count);
        self.quantities[idx] = new_q;

        if new_q == 0 {
            let m = self.present_mask;
            let b = unit.as_mask();
            self.present_mask = m & !b;
            proof {
                lemma_mask_clear(m, b);
            }
        }
    }

    /// True when this group holds at least as many units of every type as
    /// `other`: the first, mutation-free pass of an all-or-nothing
    /// subtraction.
    pub fn has_enough(&self, other: &Self) -> (r: bool)
        requires
            self.wf(),
            other.wf(),
        ensures
            r == spec_has_enough(self@, other@),
    {
        let mut i: usize = 0;
        while i < UNIT_TYPE_COUNT
            invariant
                i <= UNIT_TYPE_COUNT,
                self.wf(),
                other.wf(),
                forall|j: int| 0 <= j < i ==> self@[j] >= other@[j],
            decreases UNIT_TYPE_COUNT - i,
        {
            if self.quantities[i] < other.quantities[i] {
                proof {
                    assert(self@[i as int] < other@[i as int]);
                }
                return false;
            }
            i = i + 1;
        }
        true
    }

    /// All-or-nothing subtraction: only if every type's count is at least
    /// `other`'s does the subtraction happen; otherwise the group is left
    /// fully unchanged.
    pub fn subtract_if_enough(&mut self, other: &Self) -> (r: bool)
        requires
            old(self).wf(),
            other.wf(),
        ensures
            final(self).wf(),
            r == spec_has_enough(old(self)@, other@),
            r ==> final(self)@ == seq![
                spec_sat_sub(old(self)@[0], other@[0]),
                spec_sat_sub(old(self)@[1], other@[1]),
                spec_sat_sub(old(self)@[2], other@[2]),
            ],
            !r ==> final(self)@ == old(self)@,
    {
        if !self.has_enough(other) {
            return false;
        }
        self.subtract_single_type(Unit::Knight, other.quantities[0]);
        self.subtract_single_type(Unit::Mage, other.quantities[1]);
        self.subtract_single_type(Unit::Dragon, other.quantities[2]);
        proof {
            assert(final(self)@ =~= seq![
                spec_sat_sub(old(self)@[0], other@[0]),
                spec_sat_sub(old(self)@[1], other@[1]),
                spec_sat_sub(old(self)@[2], other@[2]),
            ]);
        }
        true
    }

    /// Add every type's count from `other`, each clamped at the largest
    /// representable count.
    pub fn saturating_add(&mut self, other: &Self)
        requires
            old(self).wf(),
            other.wf(),
        ensures
            final(self).wf(),
            final(self)@ == seq![
                spec_sat_add(old(self)@[0], other@[0]),
                spec_sat_add(old(self)@[1], other@[1]),
                spec_sat_add(old(self)@[2], other@[2]),
            ],
    {
        self.add_single_type(Unit::Knight, other.quantities[0]);
        self.add_single_type(Unit::Mage, other.quantities[1]);
        self.add_single_type(Unit::Dragon, other.quantities[2]);
        proof {
            assert(final(self)@ =~= seq![
                spec_sat_add(old(self)@[0], other@[0]),
                spec_sat_add(old(self)@[1], other@[1]),
                spec_sat_add(old(self)@[2], other@[2]),
            ]);
        }
    }

    /// Remove `count` units of one type, clamping at zero, and keep the
    /// presence mask in step with the new count.
    pub fn remove(&mut self, unit: Unit, count: u16)
        requires
            old(self).wf(),
        ensures
            final(self).wf(),
            final(self)@ == old(self)@.update(
                spec_unit_index(unit),
                spec_sat_sub(old(self)@[spec_unit_index(unit)], count),
            ),
    {
        self.subtract_single_type(unit, count);
    }

    /// True when any units of the given type are present.
    pub fn contains(&self, unit: Unit) -> (r: bool)
        requires
            self.wf(),
        ensures
            r == (self@[spec_unit_index(unit)] > 0),
    {
        self.present_mask & unit.as_mask() != 0
    }

    /// The unit types present in this group, in index order, each with its
    /// count.
    pub fn iter_present(&self) -> (r: Vec<(Unit, u16)>)
        requires
            self.wf(),
        ensures
            r@ == spec_present_list(self@),
    {
        let mut out: Vec<(Unit, u16)> = Vec::new();
        if self.contains(Unit::Knight) {
            out.push((Unit::Knight, self.quantities[0]));
        }
        if self.contains(Unit::Mage) {
            out.push((Unit::Mage, self.quantities[1]));
        }
        if self.contains(Unit::Dragon) {
            out.push((Unit::Dragon, self.quantities[2]));
        }
        proof {
            assert(out@ =~= spec_present_list(self@));
        }
        out
    }

    /// Snapshot of the per-type counts for export.
    pub fn export(&self) -> (r: UnitGroupE)
        requires
            self.wf(),
        ensures
            r.quantities@ == self@,
    {
        UnitGroupE { quantities: self.quantities.clone() }
    }

    /// Rebuild a group from an exported snapshot, deriving the presence mask;
    /// counts beyond the supported types, or types the snapshot misses, are
    /// zero.
    pub fn from_export(export: UnitGroupE) -> (r: Self)
        ensures
            r.wf(),
            forall|i: int|
                0 <= i < UNIT_TYPE_COUNT ==> r@[i] == (if i < export.quantities@.len() {
                    export.quantities@[i]
                } else {
                    0u16
                }),
    {
        let mut unit_group = Self::new();
        if export.quantities.len() > 0 {
            unit_group.add_single_type(Unit::Knight, export.quantities[0]);
        }
        if export.quantities.len() > 1 {
            unit_group.add_single_type(Unit::Mage, export.quantities[1]);
        }
        if export.quantities.len() > 2 {
            unit_group.add_single_type(Unit::Dragon, export.quantities[2]);
        }
        unit_group
    }

    /// True when no units of any type are present.
    pub fn is_empty(&self) -> (r: bool)
        requires
            self.wf(),
        ensures
            r == (forall|i: int| 0 <= i < UNIT_TYPE_COUNT ==> self@[i] == 0),
    {
        let r = self.quantities[0] == 0 && self.quantities[1] == 0 && self.quantities[2] == 0;
        proof {
            if r {
                assert forall|i: int| 0 <= i < UNIT_TYPE_COUNT implies self@[i] == 0 by {
                    assert(i == 0 || i == 1 || i == 2);
                }
            } else {
                if self.quantities@[0] != 0 {
                    assert(!(self@[0] == 0));
                } else if self.quantities@[1] != 0 {
                    assert(!(self@[1] == 0));
                } else {
                    assert(!(self@[2] == 0));
                }
            }
        }
        r
    }
}

/// The unit types present in a group, in index order, each with its count.
pub open spec fn spec_present_list(q: Seq<u16>) -> Seq<(Unit, u16)>
    recommends
        q.len() == UNIT_TYPE_COUNT,
{
    let a = if q[0] > 0 {
        seq![(Unit::Knight, q[0])]
    } else {
        Seq::empty()
    };
    let b = if q[1] > 0 {
        seq![(Unit::Mage, q[1])]
    } else {
        Seq::empty()
    };
    let c = if q[2] > 0 {
        seq![(Unit::Dragon, q[2])]
    } else {
        Seq::empty()
    };
    a + b + c
}

/// Setting one presence bit leaves every presence test of other bits alone
/// and makes the set bit's test true.
proof fn lemma_mask_or(m: u8, b: u8)
    requires
        m < 8,
        b == 1 || b == 2 || b == 4,
    ensures
        (m | b) < 8,
        (m | b) & b != 0,
        b != 1 ==> ((m | b) & 1 != 0) == (m & 1 != 0),
        b != 2 ==> ((m | b) & 2 != 0) == (m & 2 != 0),
        b != 4 ==> ((m | b) & 4 != 0) == (m & 4 != 0),
{
    assert((m < 8 && (b == 1 || b == 2 || b == 4)) ==> ((m | b) < 8 && (m | b) & b != 0 && (b != 1
        ==> ((m | b) & 1 != 0) == (m & 1 != 0)) && (b != 2 ==> ((m | b) & 2 != 0) == (m & 2 != 0))
        && (b != 4 ==> ((m | b) & 4 != 0) == (m & 4 != 0)))) by (bit_vector);
}

/// Clearing one presence bit leaves every presence test of other bits alone
/// and makes the cleared bit's test false.
proof fn lemma_mask_clear(m: u8, b: u8)
    requires
        m < 8,
        b == 1 || b == 2 || b == 4,
    ensures
        (m & !b) < 8,
        (m & !b) & b == 0,
        b != 1 ==> ((m & !b) & 1 != 0) == (m & 1 != 0),
        b != 2 ==> ((m & !b) & 2 != 0) == (m & 2 != 0),
        b != 4 ==> ((m & !b) & 4 != 0) == (m & 4 != 0),
{
    assert((m < 8 && (b == 1 || b == 2 || b == 4)) ==> ((m & !b) < 8 && (m & !b) & b == 0 && (b
        != 1 ==> ((m & !b) & 1 != 0) == (m & 1 != 0)) && (b != 2 ==> ((m & !b) & 2 != 0) == (m & 2
        != 0)) && (b != 4 ==> ((m & !b) & 4 != 0) == (m & 4 != 0)))) by (bit_vector);
}

/// Saturating addition of a whole group followed by all-or-nothing
/// subtraction of the same group returns the first group to its prior state,
/// provided no per-type count hit saturation during the addition.
pub proof fn lemma_add_then_subtract_roundtrip(a: Seq<u16>, b: Seq<u16>)
    requires
        a.len() == UNIT_TYPE_COUNT,
        b.len() == UNIT_TYPE_COUNT,
        forall|i: int| 0 <= i < UNIT_TYPE_COUNT ==> a[i] + b[i] <= u16::MAX,
    ensures
        spec_has_enough(
            seq![
                spec_sat_add(a[0], b[0]),
                spec_sat_add(a[1], b[1]),
                spec_sat_add(a[2], b[2]),
            ],
            b,
        ),
        seq![
            spec_sat_sub(spec_sat_add(a[0], b[0]), b[0]),
            spec_sat_sub(spec_sat_add(a[1], b[1]), b[1]),
            spec_sat_sub(spec_sat_add(a[2], b[2]), b[2]),
        ] == a,
{
    assert(seq![
        spec_sat_sub(spec_sat_add(a[0], b[0]), b[0]),
        spec_sat_sub(spec_sat_add(a[1], b[1]), b[1]),
        spec_sat_sub(spec_sat_add(a[2], b[2]), b[2]),
    ] =~= a);
}

/// A moving agent: a unit group in transit along a precomputed path toward a
/// target (outbound) or back home (returning).
#[derive(Debug)]
pub struct DeployedUnits {
    pub owner_id: GameID,
    pub target_id: Option<GameID>,
    pub returning: bool,
    pub path: VecDeque<GameCoord>,
    pub path_index: usize,
    pub path_size: usize,
    pub unit_group: UnitGroup,
}

impl DeployedUnits {
    /// The path is non-empty, the index stays inside it, and the recorded
    /// size matches it; the carried group is well formed.
    pub open spec fn wf(&self) -> bool {
        &&& self.path@.len() >= 1
        &&& self.path_index < self.path@.len()
        &&& self.path_size == self.path@.len()
        &&& self.unit_group.wf()
    }

    /// At the terminal end of the path for the current direction: the next
    /// tick produces no movement and the agent must be resolved instead.
    pub open spec fn spec_pending(&self) -> bool {
        (self.returning && self.path_index == 0) || (!self.returning && self.path_index
            >= self.path@.len() - 1)
    }

    /// One movement tick: the index advances by one (outbound) or recedes by
    /// one (returning), clamped to the path's bounds.
    pub open spec fn spec_move(self) -> Self {
        let next = if self.returning {
            if self.path_index > 0 {
                (self.path_index - 1) as usize
            } else {
                0usize
            }
        } else {
            if self.path_index + 1 < self.path@.len() {
                (self.path_index + 1) as usize
            } else {
                self.path_index
            }
        };
        Self { path_index: next, ..self }
    }

    /// A fresh outbound agent at the start of its path.
    pub fn new(
        owner_id: GameID,
        target_id: Option<GameID>,
        path: VecDeque<GameCoord>,
        unit_group: UnitGroup,
    ) -> (r: Self)
        requires
            path@.len() >= 1,
            unit_group.wf(),
        ensures
            r.wf(),
            r.owner_id == owner_id,
            r.target_id == target_id,
            r.returning == false,
            r.path == path,
            r.path_index == 0,
            r.unit_group == unit_group,
    {
        let path_size = path.len();
        Self { owner_id, target_id, path_size, path, unit_group, path_index: 0, returning: false }
    }

    /// The agent's current map position.
    pub fn get_pos(&self) -> (r: GameCoord)
        requires
            self.wf(),
        ensures
            r == self.path@[self.path_index as int],
    {
        self.path[self.path_index]
    }

    /// Advance one step along the path in the current direction; a no-op at
    /// either end of the path.
    pub fn move_along_path(&mut self)
        requires
            old(self).wf(),
        ensures
            final(self).wf(),
            *final(self) == old(self).spec_move(),
    {
        let next_index: usize = match self.returning {
            true => if self.path_index > 0 {
                self.path_index - 1
            } else {
                0
            },
            false => if self.path_index < usize::MAX {
                self.path_index + 1
            } else {
                self.path_index
            },
        };

        if next_index < self.path.len() {
            self.path_index = next_index;
        }
        proof {
            assert(*self =~= old(self).spec_move());
        }
    }

    /// True when the agent sits at the terminal end of its path for the
    /// current direction.
    pub fn pending(&self) -> (r: bool)
        requires
            self.wf(),
        ensures
            r == self.spec_pending(),
    {
        if self.path_index == 0 && self.returning == true {
            return true;
        }
        if self.path_index >= self.path_size - 1 && self.returning == false {
            return true;
        }
        false
    }

    /// True when the agent has finished the return leg and is home.
    pub fn arrived_home(&self) -> (r: bool)
        requires
            self.wf(),
        ensures
            r == (self.spec_pending() && self.returning),
    {
        self.pending() && self.returning
    }

    /// True when the agent has reached the target end of its path.
    pub fn arrived_target(&self) -> (r: bool)
        requires
            self.wf(),
        ensures
            r == (self.spec_pending() && !self.returning),
    {
        self.pending() && !self.returning
    }

    /// Strength of the carried group.
    pub fn get_strength(&self) -> (r: u32)
        requires
            self.wf(),
        ensures
            r == spec_strength(self.unit_group@),
    {
        self.unit_group.get_strength()
    }

    /// Flip the agent onto its return leg.
    pub fn turn_back(&mut self)
        requires
            old(self).wf(),
        ensures
            final(self).wf(),
            *final(self) == (Self { returning: true, ..*old(self) }),
    {
        self.returning = true;
    }

    /// Snapshot of the agent for export.
    pub fn export(&self) -> (r: DeployedUnitsE)
        requires
            self.wf(),
        ensures
            r.owner_id == self.owner_id,
            r.pos == self.path@[self.path_index as int],
    {
        DeployedUnitsE { owner_id: self.owner_id, pos: self.get_pos() }
    }
}

/// The agent after `n` movement ticks.
pub open spec fn spec_move_n(d: DeployedUnits, n: nat) -> DeployedUnits
    decreases n,
{
    if n == 0 {
        d
    } else {
        spec_move_n(d, (n - 1) as nat).spec_move()
    }
}

/// An outbound agent's index after `n` ticks is its starting index plus `n`,
/// clamped to the last position of the path; nothing else changes.
pub proof fn lemma_outbound_progress(d: DeployedUnits, n: nat)
    requires
        d.wf(),
        !d.returning,
    ensures
        spec_move_n(d, n).wf(),
        spec_move_n(d, n) == (DeployedUnits {
            path_index: if d.path_index + n < d.path@.len() {
                (d.path_index + n) as usize
            } else {
                (d.path@.len() - 1) as usize
            },
            ..d
        }),
    decreases n,
{
    if n > 0 {
        lemma_outbound_progress(d, (n - 1) as nat);
    }
}

/// A returning agent's index after `n` ticks is its starting index minus
/// `n`, clamped to zero; nothing else changes.
pub proof fn lemma_returning_progress(d: DeployedUnits, n: nat)
    requires
        d.wf(),
        d.returning,
    ensures
        spec_move_n(d, n).wf(),
        spec_move_n(d, n) == (DeployedUnits {
            path_index: if n <= d.path_index {
                (d.path_index - n) as usize
            } else {
                0usize
            },
            ..d
        }),
    decreases n,
{
    if n > 0 {
        lemma_returning_progress(d, (n - 1) as nat);
    }
}

/// An agent created outbound on a path of length `L` becomes pending after
/// exactly `L - 1` movement ticks and not before; flipped onto its return
/// leg there, it becomes pending at home after exactly `L - 1` further ticks
/// and not before.
pub proof fn lemma_deployed_round_trip(d: DeployedUnits)
    requires
        d.wf(),
        !d.returning,
        d.path_index == 0,
    ensures
        forall|k: nat|
            k < d.path@.len() - 1 ==> !(#[trigger] spec_move_n(d, k)).spec_pending(),
        spec_move_n(d, (d.path@.len() - 1) as nat).spec_pending(),
        ({
            let arrived = spec_move_n(d, (d.path@.len() - 1) as nat);
            let flipped = DeployedUnits { returning: true, ..arrived };
            &&& forall|k: nat|
                d.path@.len() >= 2 && k < d.path@.len() - 1 ==> !(#[trigger] spec_move_n(
                    flipped,
                    k,
                )).spec_pending()
            &&& spec_move_n(flipped, (d.path@.len() - 1) as nat).spec_pending()
        }),
{
    let len = d.path@.len();
    assert forall|k: nat| k < len - 1 implies !(#[trigger] spec_move_n(d, k)).spec_pending() by {
        lemma_outbound_progress(d, k);
    }
    lemma_outbound_progress(d, (len - 1) as nat);
    let arrived = spec_move_n(d, (len - 1) as nat);
    let flipped = DeployedUnits { returning: true, ..arrived };
    assert(flipped.wf());
    assert(flipped.path_index == len - 1);
    assert forall|k: nat| len >= 2 && k < len - 1 implies !(#[trigger] spec_move_n(
        flipped,
        k,
    )).spec_pending() by {
        lemma_returning_progress(flipped, k);
    }
    lemma_returning_progress(flipped, (len - 1) as nat);
}

} // verus!
