//! The session pool behind the connection-accepting front door: each
//! authenticated connection is assigned to the first lobby with room, a new
//! lobby is spun up while the pool has room, and only an exhausted pool
//! refuses a connection.

use vstd::prelude::*;

use crate::game::Game;
use crate::lobby::Lobby;
use crate::lobby::player_lookup;
use crate::map::GameMap;

verus! {

/// Process-unique handle for a client connection.
pub type ClientID = usize;

/// Errors of the server front door.
#[derive(Debug)]
pub enum ServerErr {
    PoisonedMutex,
    MissingLobbyTx,
    ServerFull,
    AuthFailed,
}

/// The lobby can admit this connection: it has room and does not already
/// hold it.
pub open spec fn lobby_available(l: Lobby, client_id: ClientID) -> bool {
    &&& l.num_players < l.capacity
    &&& player_lookup(l.players@, client_id) is None
}

/// The pool of game sessions. Each lobby's periodic loop runs outside the
/// core; the pool owns the assignment decision.
#[derive(Debug)]
pub struct LobbyPool {
    pub lobbies: Vec<Lobby>,
    pub max_lobbies: usize,
    pub lobby_capacity: usize,
    pub map_rows: usize,
    pub map_cols: usize,
}

impl LobbyPool {
    /// Every lobby is well formed with the pool's per-session capacity, and
    /// the pool never exceeds its size.
    pub open spec fn wf(&self) -> bool {
        &&& self.lobbies@.len() <= self.max_lobbies
        &&& self.lobby_capacity >= 1
        &&& self.map_rows >= 1
        &&& self.map_cols >= 1
        &&& self.map_rows * self.map_cols <= usize::MAX
        &&& forall|i: int|
            0 <= i < self.lobbies@.len() ==> (#[trigger] self.lobbies@[i]).wf()
                && self.lobbies@[i].capacity == self.lobby_capacity
    }

    /// An empty pool holding up to `max_lobbies` sessions of
    /// `lobby_capacity` players each, generating maps of the given size.
    pub fn new(max_lobbies: usize, lobby_capacity: usize, map_rows: usize, map_cols: usize) -> (r:
        Self)
        requires
            lobby_capacity >= 1,
            map_rows >= 1,
            map_cols >= 1,
            map_rows * map_cols <= usize::MAX,
        ensures
            r.wf(),
            r.lobbies@.len() == 0,
            r.max_lobbies == max_lobbies,
            r.lobby_capacity == lobby_capacity,
    {
        let lobbies: Vec<Lobby> = Vec::new();
        Self { lobbies, max_lobbies, lobby_capacity, map_rows, map_cols }
    }

    /// Assign a connection to a session: the first existing lobby with room
    /// takes it; with none, a new lobby is spun up while the pool has room;
    /// only an exhausted pool refuses, with a capacity signal and nothing
    /// changed.
    pub fn assign_client_to_lobby(&mut self, client_id: ClientID, player_name: String) -> (r:
        Result<usize, ServerErr>)
        requires
            old(self).wf(),
        ensures
            final(self).wf(),
            final(self).max_lobbies == old(self).max_lobbies,
            final(self).lobby_capacity == old(self).lobby_capacity,
            r matches Ok(i) ==> {
                &&& i < final(self).lobbies@.len()
                &&& final(self).lobbies@[i as int].players@.len() >= 1
                &&& final(self).lobbies@[i as int].players@.last().0 == client_id
                &&& final(self).lobbies@[i as int].players@.last().1.name == player_name
                &&& final(self).lobbies@[i as int].players@.last().1.status is Init
                &&& forall|j: int|
                    0 <= j < old(self).lobbies@.len() && j != i ==> #[trigger] final(self).lobbies@[j] == old(self).lobbies@[j]
                &&& (i < old(self).lobbies@.len() ==> {
                    &&& final(self).lobbies@.len() == old(self).lobbies@.len()
                    &&& lobby_available(old(self).lobbies@[i as int], client_id)
                    &&& forall|j: int|
                        0 <= j < i ==> !lobby_available(
                            #[trigger] old(self).lobbies@[j],
                            client_id,
                        )
                })
                &&& (i >= old(self).lobbies@.len() ==> {
                    &&& i == old(self).lobbies@.len()
                    &&& final(self).lobbies@.len() == old(self).lobbies@.len() + 1
                    &&& old(self).lobbies@.len() < old(self).max_lobbies
                    &&& final(self).lobbies@[i as int].players@.len() == 1
                    &&& forall|j: int|
                        0 <= j < old(self).lobbies@.len() ==> !lobby_available(
                            #[trigger] old(self).lobbies@[j],
                            client_id,
                        )
                })
            },
            r is Err ==> {
                &&& r == Result::<usize, ServerErr>::Err(ServerErr::ServerFull)
                &&& final(self).lobbies@ == old(self).lobbies@
                &&& old(self).lobbies@.len() >= old(self).max_lobbies
                &&& forall|j: int|
                    0 <= j < old(self).lobbies@.len() ==> !lobby_available(
                        #[trigger] old(self).lobbies@[j],
                        client_id,
                    )
            },
    {
        let n = self.lobbies.len();
        let mut i: usize = 0;
        while i < n
            invariant
                old(self).wf(),
                *self == *old(self),
                n == self.lobbies@.len(),
                i <= n,
                forall|j: int|
                    0 <= j < i ==> !lobby_available(#[trigger] self.lobbies@[j], client_id),
            decreases n - i,
        {
            let has_room = !self.lobbies[i].is_full();
            if has_room {
                let fresh = !self.lobbies[i].has_client(client_id);
                if fresh {
                    let ghost pre = self.lobbies@;
                    let mut lobby = self.lobbies.remove(i);
                    let res = lobby.add_client(client_id, player_name);
                    proof {
                        assert(res is Ok);
                    }
                    self.lobbies.insert(i, lobby);
                    proof {
                        assert(self.lobbies@ =~= pre.update(i as int, self.lobbies@[i as int]));
                    }
                    return Ok(i);
                }
            }
            i = i + 1;
        }

        if self.lobbies.len() < self.max_lobbies {
            let map = GameMap::new_sized(self.map_rows, self.map_cols);
            let game = Game::with_map(map);
            let mut lobby = Lobby::with_game(game, self.lobby_capacity);
            let res = lobby.add_client(client_id, player_name);
            proof {
                assert(res is Ok);
            }
            let idx = self.lobbies.len();
            self.lobbies.push(lobby);
            return Ok(idx);
        }

        Err(ServerErr::ServerFull)
    }
}

} // verus!
