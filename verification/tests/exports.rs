use castli::castle::Castle;
use castli::exports::CastleE;
use castli::game_obj::GameObj;
use castli::structure::Structure;
use castli::exports::DeployedUnitsE;
use castli::exports::GameObjE;
use castli::exports::PlayerE;
use castli::exports::StructureE;
use castli::exports::StructureTypeE;
use castli::exports::UnitE;
use castli::exports::UnitGroupE;
use castli::GameCoord;

#[test]
fn unit_e_indexes() {
    assert_eq!(UnitE::Knight.as_index(), 0);
    assert_eq!(UnitE::Mage.as_index(), 1);
    assert_eq!(UnitE::Dragon.as_index(), 2);
}

#[test]
fn undef_snapshots_are_blank() {
    let g = UnitGroupE::undef();
    assert_eq!(g.quantities, vec![0, 0, 0]);
    let p = PlayerE::undef();
    assert_eq!(p.id, 0);
    assert_eq!(p.name, "undefined");
    assert_eq!(p.pos, GameCoord { x: 0, y: 0 });
    assert_eq!(p.units.quantities, vec![0, 0, 0]);
    assert_eq!(p.peasants, 0);
}

#[test]
fn game_obj_e_reports_its_position() {
    let castle = GameObjE::Castle(CastleE {
        name: "anna".to_string(),
        pos: GameCoord { x: 1, y: 2 },
        is_alive: true,
    });
    assert_eq!(castle.get_pos(), GameCoord { x: 1, y: 2 });

    let structure = GameObjE::Structure(StructureE {
        name: "farm".to_string(),
        kind: StructureTypeE::Farm,
        pos: GameCoord { x: 3, y: 4 },
    });
    assert_eq!(structure.get_pos(), GameCoord { x: 3, y: 4 });

    let units = GameObjE::DeployedUnits(DeployedUnitsE {
        owner_id: 7,
        pos: GameCoord { x: 5, y: 6 },
    });
    assert_eq!(units.get_pos(), GameCoord { x: 5, y: 6 });
}

#[test]
fn castle_export_snapshots_fields() {
    let castle = Castle::new("anna".to_string(), GameCoord { x: 2, y: 3 });
    let e = castle.export();
    assert_eq!(e.name, "anna");
    assert_eq!(e.pos, GameCoord { x: 2, y: 3 });
    assert!(e.is_alive);
}

#[test]
fn structure_export_snapshots_fields() {
    let s = Structure {
        name: "farm".to_string(),
        kind: StructureTypeE::Farm,
        pos: GameCoord { x: 8, y: 1 },
    };
    let e = s.export();
    assert_eq!(e.name, "farm");
    assert!(matches!(e.kind, StructureTypeE::Farm));
    assert_eq!(e.pos, GameCoord { x: 8, y: 1 });
}

#[test]
fn game_obj_export_keeps_variant() {
    let castle = Castle::new("bert".to_string(), GameCoord { x: 4, y: 4 });
    let obj = GameObj::Castle(castle);
    match obj.export() {
        GameObjE::Castle(c) => {
            assert_eq!(c.name, "bert");
            assert!(c.is_alive);
        },
        other => panic!("unexpected export: {:?}", other),
    }
}
