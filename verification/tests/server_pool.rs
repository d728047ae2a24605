use castli::server::LobbyPool;
use castli::server::ServerErr;

#[test]
fn clients_fill_lobbies_in_order() {
    let mut pool = LobbyPool::new(3, 2, 16, 16);
    assert!(matches!(pool.assign_client_to_lobby(1, "a".to_string()), Ok(0)));
    assert!(matches!(pool.assign_client_to_lobby(2, "b".to_string()), Ok(0)));
    assert!(matches!(pool.assign_client_to_lobby(3, "c".to_string()), Ok(1)));
    assert_eq!(pool.lobbies.len(), 2);
    assert_eq!(pool.lobbies[0].num_players, 2);
    assert_eq!(pool.lobbies[1].num_players, 1);
}

#[test]
fn fifth_client_spins_up_a_third_lobby() {
    // Two lobbies holding two players each are full; the fifth connection
    // gets a fresh third lobby rather than a rejection.
    let mut pool = LobbyPool::new(3, 2, 16, 16);
    for id in 1..=4 {
        assert!(pool.assign_client_to_lobby(id, format!("p{}", id)).is_ok());
    }
    assert_eq!(pool.lobbies.len(), 2);
    assert!(matches!(pool.assign_client_to_lobby(5, "p5".to_string()), Ok(2)));
    assert_eq!(pool.lobbies.len(), 3);
    assert_eq!(pool.lobbies[2].num_players, 1);
}

#[test]
fn exhausted_pool_refuses_with_capacity_signal() {
    // With the session pool capped at two lobbies of two players, the
    // fifth connection is refused.
    let mut pool = LobbyPool::new(2, 2, 16, 16);
    for id in 1..=4 {
        assert!(pool.assign_client_to_lobby(id, format!("p{}", id)).is_ok());
    }
    match pool.assign_client_to_lobby(5, "p5".to_string()) {
        Err(ServerErr::ServerFull) => {},
        other => panic!("unexpected result: {:?}", other),
    }
    assert_eq!(pool.lobbies.len(), 2);
}
