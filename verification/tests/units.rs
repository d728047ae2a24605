use castli::exports::UnitGroupE;
use castli::units::DeployedUnits;
use castli::units::Unit;
use castli::units::UnitGroup;
use castli::GameCoord;
use std::collections::VecDeque;

fn group(knights: u16, mages: u16, dragons: u16) -> UnitGroup {
    let mut g = UnitGroup::new();
    g.add_single_type(Unit::Knight, knights);
    g.add_single_type(Unit::Mage, mages);
    g.add_single_type(Unit::Dragon, dragons);
    g
}

#[test]
fn unit_indexes_and_masks() {
    assert_eq!(Unit::Knight.as_index(), 0);
    assert_eq!(Unit::Mage.as_index(), 1);
    assert_eq!(Unit::Dragon.as_index(), 2);
    assert_eq!(Unit::Knight.as_mask(), 1);
    assert_eq!(Unit::Mage.as_mask(), 2);
    assert_eq!(Unit::Dragon.as_mask(), 4);
    assert!(matches!(Unit::form_index(0), Some(Unit::Knight)));
    assert!(matches!(Unit::form_index(1), Some(Unit::Mage)));
    assert!(matches!(Unit::form_index(2), Some(Unit::Dragon)));
    assert!(Unit::form_index(3).is_none());
}

#[test]
fn strength_sums_counts() {
    let g = group(5, 3, 0);
    assert_eq!(g.get_strength(), 8);
    assert_eq!(UnitGroup::new().get_strength(), 0);
}

#[test]
fn contains_follows_counts() {
    let mut g = group(2, 0, 1);
    assert!(g.contains(Unit::Knight));
    assert!(!g.contains(Unit::Mage));
    assert!(g.contains(Unit::Dragon));
    g.subtract_single_type(Unit::Dragon, 1);
    assert!(!g.contains(Unit::Dragon));
}

#[test]
fn subtract_if_enough_applies_fully() {
    let mut g = group(6, 2, 1);
    let d = group(3, 2, 0);
    assert!(g.subtract_if_enough(&d));
    assert_eq!(g.quantities, vec![3, 0, 1]);
}

#[test]
fn subtract_if_enough_insufficient_leaves_unchanged() {
    let mut g = group(6, 2, 1);
    let d = group(3, 5, 0);
    let before = g.quantities.clone();
    assert!(!g.subtract_if_enough(&d));
    assert_eq!(g.quantities, before);
    assert_eq!(g.get_strength(), 9);
}

#[test]
fn saturating_add_then_subtract_roundtrip() {
    let mut g = group(5, 3, 0);
    let d = group(2, 1, 7);
    let before = g.quantities.clone();
    g.saturating_add(&d);
    assert_eq!(g.quantities, vec![7, 4, 7]);
    assert!(g.subtract_if_enough(&d));
    assert_eq!(g.quantities, before);
}

#[test]
fn saturating_add_clamps_at_max() {
    let mut g = group(u16::MAX - 1, 0, 0);
    let d = group(5, 0, 0);
    g.saturating_add(&d);
    assert_eq!(g.quantities[0], u16::MAX);
}

#[test]
fn remove_clamps_and_clears_presence() {
    let mut g = group(2, 0, 0);
    g.remove(Unit::Knight, 5);
    assert_eq!(g.quantities[0], 0);
    assert!(!g.contains(Unit::Knight));
    assert!(g.is_empty());
}

#[test]
fn iter_present_lists_present_types_in_order() {
    let g = group(1, 0, 9);
    let present = g.iter_present();
    assert_eq!(present.len(), 2);
    assert!(matches!(present[0], (Unit::Knight, 1)));
    assert!(matches!(present[1], (Unit::Dragon, 9)));
}

#[test]
fn export_and_from_export_roundtrip() {
    let g = group(4, 0, 2);
    let e = g.export();
    assert_eq!(e.quantities, vec![4, 0, 2]);
    let g2 = UnitGroup::from_export(e);
    assert_eq!(g2.quantities, vec![4, 0, 2]);
    assert!(g2.contains(Unit::Knight));
    assert!(!g2.contains(Unit::Mage));
}

#[test]
fn from_export_pads_missing_types_with_zero() {
    let e = UnitGroupE { quantities: vec![7] };
    let g = UnitGroup::from_export(e);
    assert_eq!(g.quantities, vec![7, 0, 0]);
}

#[test]
fn is_empty_checks_every_type() {
    assert!(UnitGroup::new().is_empty());
    assert!(!group(0, 0, 1).is_empty());
}

fn line_path(len: usize) -> VecDeque<GameCoord> {
    let mut path = VecDeque::new();
    for i in 0..len {
        path.push_back(GameCoord { x: i, y: 0 });
    }
    path
}

#[test]
fn deployed_units_round_trip_timing() {
    // An agent on a path of length 4 becomes pending after exactly 3
    // forward moves, and pending at home after 3 more on the return leg.
    let len = 4;
    let mut d = DeployedUnits::new(7, Some(9), line_path(len), group(1, 0, 0));
    assert!(!d.pending());
    for step in 1..len {
        assert!(!d.pending());
        d.move_along_path();
        if step < len - 1 {
            assert!(!d.pending());
        }
    }
    assert!(d.pending());
    assert!(d.arrived_target());
    assert!(!d.arrived_home());
    assert_eq!(d.get_pos(), GameCoord { x: len - 1, y: 0 });

    d.turn_back();
    assert!(!d.pending());
    for step in 1..len {
        assert!(!d.arrived_home());
        d.move_along_path();
        if step < len - 1 {
            assert!(!d.pending());
        }
    }
    assert!(d.pending());
    assert!(d.arrived_home());
    assert_eq!(d.get_pos(), GameCoord { x: 0, y: 0 });
}

#[test]
fn deployed_units_move_clamps_at_path_ends() {
    let mut d = DeployedUnits::new(1, None, line_path(2), group(1, 0, 0));
    d.move_along_path();
    assert_eq!(d.get_pos(), GameCoord { x: 1, y: 0 });
    d.move_along_path();
    assert_eq!(d.get_pos(), GameCoord { x: 1, y: 0 });
    d.turn_back();
    d.move_along_path();
    d.move_along_path();
    assert_eq!(d.get_pos(), GameCoord { x: 0, y: 0 });
}

#[test]
fn deployed_units_single_cell_path_is_immediately_pending() {
    let d = DeployedUnits::new(1, None, line_path(1), group(1, 0, 0));
    assert!(d.pending());
    assert!(d.arrived_target());
}

#[test]
fn deployed_units_export_reports_position() {
    let mut d = DeployedUnits::new(3, None, line_path(3), group(0, 2, 0));
    d.move_along_path();
    let e = d.export();
    assert_eq!(e.owner_id, 3);
    assert_eq!(e.pos, GameCoord { x: 1, y: 0 });
    assert_eq!(d.get_strength(), 2);
}
