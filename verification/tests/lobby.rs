use castli::exports::TileE;
use castli::exports::UnitGroupE;
use castli::game::Game;
use castli::lobby::Lobby;
use castli::map::GameMap;
use castli::messages::C2S4L;
use castli::messages::L2S4C;
use castli::player::PlayerStatus;
use castli::GameCoord;

fn open_lobby(capacity: usize) -> Lobby {
    let tiles = vec![vec![TileE::Grass; 12]; 12];
    let game = Game::with_map(GameMap::from_tiles(&tiles).unwrap());
    Lobby::with_game(game, capacity)
}

fn knight_group(n: u16) -> UnitGroupE {
    UnitGroupE { quantities: vec![n, 0, 0] }
}

#[test]
fn add_client_fills_until_capacity() {
    let mut lobby = open_lobby(2);
    assert!(!lobby.is_full());
    assert!(lobby.add_client(1, "anna".to_string()).is_ok());
    assert!(lobby.add_client(2, "bert".to_string()).is_ok());
    assert!(lobby.is_full());
    assert!(lobby.add_client(3, "carl".to_string()).is_err());
}

#[test]
fn add_client_rejects_duplicate_connection() {
    let mut lobby = open_lobby(3);
    assert!(lobby.add_client(1, "anna".to_string()).is_ok());
    assert!(lobby.add_client(1, "anna".to_string()).is_err());
}

#[test]
fn give_player_before_castle_asks_for_one() {
    let mut lobby = open_lobby(2);
    lobby.add_client(1, "anna".to_string()).unwrap();
    let reply = lobby.apply_command(1, C2S4L::GivePlayer);
    assert!(matches!(reply, Some(L2S4C::CreateCastle)));
}

#[test]
fn new_castle_binds_player_and_logs() {
    let mut lobby = open_lobby(2);
    lobby.add_client(1, "anna".to_string()).unwrap();
    let reply = lobby.apply_command(1, C2S4L::NewCastle(GameCoord { x: 2, y: 2 }));
    match reply {
        Some(L2S4C::Log(msg)) => assert_eq!(msg, "Castle created successfully"),
        other => panic!("unexpected reply: {:?}", other),
    }
    assert!(matches!(lobby.players[0].1.status, PlayerStatus::Alive));
    assert_eq!(lobby.players[0].1.castle_id, Some(1));

    let reply = lobby.apply_command(1, C2S4L::GivePlayer);
    match reply {
        Some(L2S4C::Player(p)) => {
            assert_eq!(p.name, "anna");
            assert_eq!(p.pos, GameCoord { x: 2, y: 2 });
            assert_eq!(p.units.quantities, vec![6, 0, 0]);
        },
        other => panic!("unexpected reply: {:?}", other),
    }
}

#[test]
fn second_new_castle_request_is_dropped() {
    let mut lobby = open_lobby(2);
    lobby.add_client(1, "anna".to_string()).unwrap();
    lobby.apply_command(1, C2S4L::NewCastle(GameCoord { x: 2, y: 2 }));
    let reply = lobby.apply_command(1, C2S4L::NewCastle(GameCoord { x: 5, y: 5 }));
    assert!(reply.is_none());
    assert_eq!(lobby.game.export_objs().len(), 1);
}

#[test]
fn command_from_unknown_connection_is_dropped() {
    let mut lobby = open_lobby(2);
    let reply = lobby.apply_command(9, C2S4L::NewCastle(GameCoord { x: 1, y: 1 }));
    assert!(reply.is_none());
    assert!(lobby.apply_command(9, C2S4L::GivePlayer).is_none());
}

#[test]
fn give_map_and_objs_snapshot_the_game() {
    let mut lobby = open_lobby(2);
    lobby.add_client(1, "anna".to_string()).unwrap();
    lobby.apply_command(1, C2S4L::NewCastle(GameCoord { x: 3, y: 3 }));
    match lobby.apply_command(1, C2S4L::GiveMap) {
        Some(L2S4C::MapTiles(tiles)) => {
            assert_eq!(tiles.len(), 12);
            assert_eq!(tiles[0].len(), 12);
        },
        other => panic!("unexpected reply: {:?}", other),
    }
    match lobby.apply_command(1, C2S4L::GiveObjs) {
        Some(L2S4C::GameObjs(objs)) => assert_eq!(objs.len(), 1),
        other => panic!("unexpected reply: {:?}", other),
    }
}

#[test]
fn attack_command_from_init_player_is_dropped() {
    let mut lobby = open_lobby(2);
    lobby.add_client(1, "anna".to_string()).unwrap();
    let reply = lobby.apply_command(1, C2S4L::AttackCastle(5, knight_group(1)));
    assert!(reply.is_none());
    assert_eq!(lobby.game.export_objs().len(), 0);
}

#[test]
fn lobby_combat_marks_loser_dead() {
    let mut lobby = open_lobby(2);
    lobby.add_client(1, "anna".to_string()).unwrap();
    lobby.add_client(2, "bert".to_string()).unwrap();
    lobby.apply_command(1, C2S4L::NewCastle(GameCoord { x: 0, y: 0 }));
    lobby.apply_command(2, C2S4L::NewCastle(GameCoord { x: 4, y: 0 }));
    let bert_castle = lobby.players[1].1.castle_id.unwrap();

    // Bert thins his garrison, then Anna attacks with a stronger force.
    lobby.apply_command(2, C2S4L::SendUnits(GameCoord { x: 11, y: 11 }, knight_group(5)));
    lobby.apply_command(1, C2S4L::AttackCastle(bert_castle, knight_group(4)));

    for _ in 0..8 {
        lobby.game.step();
        lobby.update_players_status();
    }
    assert!(matches!(lobby.players[1].1.status, PlayerStatus::Dead));
    assert!(matches!(lobby.players[0].1.status, PlayerStatus::Alive));
}
