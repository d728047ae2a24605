use castli::exports::GameObjE;
use castli::exports::TileE;
use castli::exports::UnitGroupE;
use castli::game::Game;
use castli::map::GameMap;
use castli::GameCoord;
use castli::GameID;

fn open_game(rows: usize, cols: usize) -> Game {
    let tiles = vec![vec![TileE::Grass; cols]; rows];
    Game::with_map(GameMap::from_tiles(&tiles).unwrap())
}

fn knights(n: u16) -> UnitGroupE {
    UnitGroupE { quantities: vec![n, 0, 0] }
}

fn garrison_of(game: &Game, id: GameID) -> Vec<u16> {
    game.export_player(id).units.quantities
}

#[test]
fn add_player_castle_assigns_fresh_ids() {
    let mut game = open_game(10, 10);
    let a = game.add_player_castle("anna".to_string(), GameCoord { x: 0, y: 0 });
    let b = game.add_player_castle("bert".to_string(), GameCoord { x: 5, y: 5 });
    assert_eq!(a, 1);
    assert_eq!(b, 2);
    assert!(game.is_alive(&a));
    assert!(game.is_alive(&b));
    assert_eq!(game.export_objs().len(), 2);
}

#[test]
fn new_castle_has_default_garrison() {
    let mut game = open_game(10, 10);
    let a = game.add_player_castle("anna".to_string(), GameCoord { x: 0, y: 0 });
    let view = game.export_player(a);
    assert_eq!(view.units.quantities, vec![6, 0, 0]);
    assert_eq!(view.peasants, 2);
    assert_eq!(view.name, "anna");
}

#[test]
fn export_player_unknown_id_gives_placeholder() {
    let game = open_game(10, 10);
    let view = game.export_player(42);
    assert_eq!(view.id, 0);
    assert_eq!(view.name, "undefined");
    assert_eq!(view.units.quantities, vec![0, 0, 0]);
}

#[test]
fn is_alive_false_for_unknown_id() {
    let game = open_game(10, 10);
    assert!(!game.is_alive(&3));
}

#[test]
fn attack_with_insufficient_garrison_changes_nothing() {
    let mut game = open_game(10, 10);
    let a = game.add_player_castle("anna".to_string(), GameCoord { x: 0, y: 0 });
    let b = game.add_player_castle("bert".to_string(), GameCoord { x: 0, y: 5 });
    game.attack_castle(a, b, knights(7));
    assert_eq!(game.export_objs().len(), 2);
    assert_eq!(garrison_of(&game, a), vec![6, 0, 0]);
    assert!(game.is_alive(&b));
}

#[test]
fn attack_on_unknown_target_changes_nothing() {
    let mut game = open_game(10, 10);
    let a = game.add_player_castle("anna".to_string(), GameCoord { x: 0, y: 0 });
    game.attack_castle(a, 99, knights(1));
    assert_eq!(game.export_objs().len(), 1);
    assert_eq!(garrison_of(&game, a), vec![6, 0, 0]);
}

#[test]
fn send_troops_with_empty_group_changes_nothing() {
    let mut game = open_game(10, 10);
    let a = game.add_player_castle("anna".to_string(), GameCoord { x: 0, y: 0 });
    game.send_troops(a, GameCoord { x: 5, y: 5 }, knights(0), None);
    assert_eq!(game.export_objs().len(), 1);
    assert_eq!(garrison_of(&game, a), vec![6, 0, 0]);
}

#[test]
fn send_troops_commits_garrison_immediately() {
    let mut game = open_game(10, 10);
    let a = game.add_player_castle("anna".to_string(), GameCoord { x: 0, y: 0 });
    game.send_troops(a, GameCoord { x: 5, y: 5 }, knights(2), None);
    assert_eq!(garrison_of(&game, a), vec![4, 0, 0]);
    assert_eq!(game.export_objs().len(), 2);
}

#[test]
fn castle_siege_scenario() {
    // Castle A attacks castle B with a force of strength 3 over an
    // obstacle-free grid; B's garrison was thinned to strength 2 by an
    // expedition of its own, so B falls, and A's force then returns home.
    let mut game = open_game(10, 10);
    let a = game.add_player_castle("anna".to_string(), GameCoord { x: 0, y: 0 });
    let b = game.add_player_castle("bert".to_string(), GameCoord { x: 4, y: 4 });
    assert_eq!(garrison_of(&game, a), vec![6, 0, 0]);
    assert_eq!(garrison_of(&game, b), vec![6, 0, 0]);

    // B commits 4 knights to a far-off position, leaving strength 2 behind.
    game.send_troops(b, GameCoord { x: 9, y: 9 }, knights(4), None);
    assert_eq!(garrison_of(&game, b), vec![2, 0, 0]);

    // The travel time equals the path length the map reports.
    let path_len = {
        let map = GameMap::from_tiles(&vec![vec![TileE::Grass; 10]; 10]).unwrap();
        map.find_path(GameCoord { x: 0, y: 0 }, GameCoord { x: 4, y: 4 }).unwrap().len()
    };
    assert_eq!(path_len, 5);

    // A attacks B with 3 knights: its garrison drops to 3 immediately.
    game.attack_castle(a, b, knights(3));
    assert_eq!(garrison_of(&game, a), vec![3, 0, 0]);
    assert_eq!(game.export_objs().len(), 4);

    // After path_len - 1 ticks the force stands at B, which is still alive.
    for _ in 0..path_len - 1 {
        game.step();
    }
    assert!(game.is_alive(&b));
    let at_target = game.export_objs().iter().any(|(_, obj)| match obj {
        GameObjE::DeployedUnits(d) => d.pos == GameCoord { x: 4, y: 4 },
        _ => false,
    });
    assert!(at_target);

    // The next tick resolves the combat: strength 3 beats 2, B falls.
    game.step();
    assert!(!game.is_alive(&b));
    assert!(game.is_alive(&a));

    // The force walks home and merges back: A's garrison returns to 6.
    for _ in 0..path_len {
        game.step();
    }
    assert_eq!(garrison_of(&game, a), vec![6, 0, 0]);
    assert!(!game.is_alive(&b));

    // A's expedition is gone from the table; B's is still travelling.
    let deployed: Vec<GameID> = game
        .export_objs()
        .iter()
        .filter(|(_, obj)| matches!(obj, GameObjE::DeployedUnits(_)))
        .map(|(id, _)| *id)
        .collect();
    assert_eq!(deployed.len(), 1);
}

#[test]
fn defender_with_equal_strength_survives() {
    let mut game = open_game(10, 10);
    let a = game.add_player_castle("anna".to_string(), GameCoord { x: 0, y: 0 });
    let b = game.add_player_castle("bert".to_string(), GameCoord { x: 3, y: 0 });
    // A force of strength 6 attacks a garrison of strength 6: not enough.
    game.attack_castle(a, b, knights(6));
    for _ in 0..20 {
        game.step();
    }
    assert!(game.is_alive(&b));
    assert_eq!(garrison_of(&game, a), vec![6, 0, 0]);
}

#[test]
fn export_map_matches_grid() {
    let mut tiles = vec![vec![TileE::Grass; 6]; 5];
    tiles[2][2] = TileE::Water;
    let game = Game::with_map(GameMap::from_tiles(&tiles).unwrap());
    assert_eq!(game.export_map(), tiles);
}
