//! One isolated game session: its game, its players, and the dispatch of
//! client commands to game actions. The message queues and the periodic
//! loop that drains them live outside the core; they hand commands in and
//! take replies out as plain values.

use vstd::prelude::*;

use crate::MAX_LOBBY_PLAYERS;
use crate::game::Game;
use crate::game::spec_attack_outcome;
use crate::game::spec_group_of_export;
use crate::game::spec_lookup;
use crate::game::spec_same_state;
use crate::game::spec_send_outcome;
use crate::game_obj::GameObj;
use crate::messages::C2S4L;
use crate::messages::L2S4C;
use crate::player::Player;
use crate::player::PlayerStatus;
use crate::server::ClientID;

verus! {

/// Errors a lobby reports to the session pool.
#[derive(Debug)]
pub enum LobbyErr {
    AddClientFail,
}

/// The player record stored under a connection id, if any.
pub open spec fn player_lookup(s: Seq<(ClientID, Player)>, id: ClientID) -> Option<Player>
    decreases s.len(),
{
    if s.len() == 0 {
        None
    } else if s[0].0 == id {
        Some(s[0].1)
    } else {
        player_lookup(s.drop_first(), id)
    }
}

proof fn lemma_player_lookup_at_index(s: Seq<(ClientID, Player)>, id: ClientID, i: int)
    requires
        0 <= i < s.len(),
        s[i].0 == id,
        forall|j: int| 0 <= j < i ==> s[j].0 != id,
    ensures
        player_lookup(s, id) == Some(s[i].1),
    decreases s.len(),
{
    if i > 0 {
        lemma_player_lookup_at_index(s.drop_first(), id, i - 1);
    }
}

proof fn lemma_player_lookup_none(s: Seq<(ClientID, Player)>, id: ClientID)
    requires
        forall|j: int| 0 <= j < s.len() ==> s[j].0 != id,
    ensures
        player_lookup(s, id) is None,
    decreases s.len(),
{
    if s.len() > 0 {
        lemma_player_lookup_none(s.drop_first(), id);
    }
}

/// One game session: a game, the players connected to it, and its capacity.
#[derive(Debug)]
pub struct Lobby {
    pub players: Vec<(ClientID, Player)>,
    pub num_players: usize,
    pub game: Game,
    pub capacity: usize,
}

/// The lobby's own state did not change.
pub open spec fn lobby_same(pre: Lobby, post: Lobby) -> bool {
    &&& post.players@ == pre.players@
    &&& post.num_players == pre.num_players
    &&& post.capacity == pre.capacity
    &&& spec_same_state(pre.game, post.game)
}

impl Lobby {
    /// The game is well formed, the player count matches the roster,
    /// connection ids are unique, every player record is well formed, and
    /// the roster never exceeds the capacity.
    pub open spec fn wf(&self) -> bool {
        &&& self.game.wf()
        &&& self.num_players == self.players@.len()
        &&& self.players@.len() <= self.capacity
        &&& self.capacity >= 1
        &&& forall|i: int, j: int|
            0 <= i < j < self.players@.len() ==> (#[trigger] self.players@[i]).0 != (
            #[trigger] self.players@[j]).0
        &&& forall|i: int| 0 <= i < self.players@.len() ==> (#[trigger] self.players@[i]).1.wf()
    }

    /// A fresh lobby over a newly generated map, with the configured
    /// session capacity.
    pub fn new() -> (r: Self)
        ensures
            r.wf(),
            r.players@.len() == 0,
            r.capacity == MAX_LOBBY_PLAYERS,
            r.game.game_objs@.len() == 0,
    {
        let players: Vec<(ClientID, Player)> = Vec::new();
        Self { players, num_players: 0, game: Game::new(), capacity: MAX_LOBBY_PLAYERS }
    }

    /// A fresh lobby over the given game, with the given capacity.
    pub fn with_game(game: Game, capacity: usize) -> (r: Self)
        requires
            game.wf(),
            capacity >= 1,
        ensures
            r.wf(),
            r.players@.len() == 0,
            r.capacity == capacity,
            r.game == game,
    {
        let players: Vec<(ClientID, Player)> = Vec::new();
        Self { players, num_players: 0, game, capacity }
    }

    /// The lobby cannot admit another player.
    pub fn is_full(&self) -> (r: bool)
        ensures
            r == (self.num_players >= self.capacity),
    {
        self.num_players >= self.capacity
    }

    /// True when a player is already registered under the connection id.
    pub fn has_client(&self, id: ClientID) -> (r: bool)
        ensures
            r == (player_lookup(self.players@, id) is Some),
    {
        self.player_index(id).is_some()
    }

    /// Index of the player stored under a connection id.
    fn player_index(&self, id: ClientID) -> (r: Option<usize>)
        ensures
            r matches Some(i) ==> i < self.players@.len() && self.players@[i as int].0 == id
                && player_lookup(self.players@, id) == Some(self.players@[i as int].1) && (
            forall|j: int| 0 <= j < i ==> (#[trigger] self.players@[j]).0 != id),
            r is None ==> player_lookup(self.players@, id) is None && (forall|j: int|
                0 <= j < self.players@.len() ==> (#[trigger] self.players@[j]).0 != id),
    {
        let mut i: usize = 0;
        let n = self.players.len();
        while i < n
            invariant
                i <= n,
                n == self.players@.len(),
                forall|j: int| 0 <= j < i ==> (#[trigger] self.players@[j]).0 != id,
            decreases n - i,
        {
            if self.players[i].0 == id {
                proof {
                    lemma_player_lookup_at_index(self.players@, id, i as int);
                }
                return Some(i);
            }
            i = i + 1;
        }
        proof {
            lemma_player_lookup_none(self.players@, id);
        }
        None
    }

    /// Admit a connection: a full lobby reports failure rather than
    /// erroring; a fresh one gains a player waiting to place a castle.
    pub fn add_client(&mut self, client_id: ClientID, player_name: String) -> (r: Result<
        (),
        LobbyErr,
    >)
        requires
            old(self).wf(),
        ensures
            final(self).wf(),
            final(self).capacity == old(self).capacity,
            r is Ok == (old(self).num_players < old(self).capacity && player_lookup(
                old(self).players@,
                client_id,
            ) is None),
            r is Ok ==> final(self).players@.len() == old(self).players@.len() + 1 && final(self).players@.drop_last() == old(self).players@ && final(self).players@.last().0
                == client_id && final(self).players@.last().1.name == player_name && final(self).players@.last().1.castle_id is None && final(self).players@.last().1.status is Init
                && spec_same_state(old(self).game, final(self).game),
            r is Err ==> final(self).players@ == old(self).players@ && final(self).num_players
                == old(self).num_players && spec_same_state(old(self).game, final(self).game),
    {
        if self.num_players >= self.capacity {
            return Err(LobbyErr::AddClientFail);
        }
        if self.player_index(client_id).is_some() {
            return Err(LobbyErr::AddClientFail);
        }
        let player = Player::new(player_name);
        self.players.push((client_id, player));
        self.num_players = self.num_players + 1;
        proof {
            assert(final(self).players@.drop_last() =~= old(self).players@);
        }
        Ok(())
    }

    /// Re-evaluate every player: one whose castle is no longer alive in the
    /// game is marked dead; everyone else is untouched.
    pub fn update_players_status(&mut self)
        requires
            old(self).wf(),
        ensures
            final(self).wf(),
            final(self).capacity == old(self).capacity,
            final(self).num_players == old(self).num_players,
            spec_same_state(old(self).game, final(self).game),
            final(self).players@.len() == old(self).players@.len(),
            forall|i: int|
                0 <= i < old(self).players@.len() ==> #[trigger] final(self).players@[i] == {
                    let (cid, p) = old(self).players@[i];
                    if p.castle_id matches Some(k) && !(spec_lookup(
                        old(self).game.game_objs@,
                        k,
                    ) matches Some(GameObj::Castle(c)) && c.is_alive) {
                        (cid, Player { status: PlayerStatus::Dead, ..p })
                    } else {
                        (cid, p)
                    }
                },
    {
        let ghost pre_players = old(self).players@;
        let mut updated: Vec<(ClientID, Player)> = Vec::new();
        while self.players.len() > 0
            invariant
                old(self).wf(),
                pre_players == old(self).players@,
                self.game == old(self).game,
                self.capacity == old(self).capacity,
                self.num_players == old(self).num_players,
                updated@.len() + self.players@.len() == pre_players.len(),
                self.players@ == pre_players.skip(updated@.len() as int),
                forall|i: int|
                    0 <= i < updated@.len() ==> #[trigger] updated@[i] == {
                        let (cid, p) = pre_players[i];
                        if p.castle_id matches Some(k) && !(spec_lookup(
                            old(self).game.game_objs@,
                            k,
                        ) matches Some(GameObj::Castle(c)) && c.is_alive) {
                            (cid, Player { status: PlayerStatus::Dead, ..p })
                        } else {
                            (cid, p)
                        }
                    },
            decreases self.players@.len(),
        {
            let ghost k = updated@.len() as int;
            let (cid, mut p) = self.players.remove(0);
            proof {
                assert(pre_players.skip(k)[0] == pre_players[k]);
                assert(self.players@ =~= pre_players.skip(k + 1));
            }
            match p.castle_id {
                Some(castle_id) => {
                    if !self.game.is_alive(&castle_id) {
                        p.status = PlayerStatus::Dead;
                    }
                },
                None => {},
            }
            updated.push((cid, p));
        }
        self.players = updated;
        proof {
            assert forall|i: int, j: int|
                0 <= i < j < self.players@.len() implies (#[trigger] self.players@[i]).0 != (
            #[trigger] self.players@[j]).0 by {
                assert(self.players@[i].0 == pre_players[i].0);
                assert(self.players@[j].0 == pre_players[j].0);
            }
        }
    }

    /// Dispatch one client command: snapshot requests answer from the game,
    /// castle placement binds a new castle to an initializing player, and
    /// attack or troop commands from a living player commit troops in the
    /// game. A command from an unknown connection, or one its player's
    /// status does not permit, is dropped.
    pub fn apply_command(&mut self, client_id: ClientID, cmd: C2S4L) -> (r: Option<L2S4C>)
        requires
            old(self).wf(),
        ensures
            final(self).wf(),
            final(self).capacity == old(self).capacity,
            cmd is GiveMap ==> lobby_same(*old(self), *final(self)) && (r matches Some(
                L2S4C::MapTiles(m),
            ) && m@.len() == old(self).game.map.tiles.rows),
            cmd is GiveObjs ==> lobby_same(*old(self), *final(self)) && (r matches Some(
                L2S4C::GameObjs(o),
            ) && o@.len() == old(self).game.game_objs@.len() && (forall|i: int|
                0 <= i < o@.len() ==> (#[trigger] o@[i]).0 == old(self).game.game_objs@[i].0
                    && o@[i].1 == old(self).game.game_objs@[i].1.spec_export())),
            cmd is GivePlayer ==> lobby_same(*old(self), *final(self)) && match player_lookup(
                old(self).players@,
                client_id,
            ) {
                None => r is None,
                Some(p) => if p.status is Init {
                    r == Some(L2S4C::CreateCastle)
                } else {
                    r matches Some(L2S4C::Player(pe)) && {
                        let key = if p.castle_id is Some {
                            p.castle_id->0
                        } else {
                            0
                        };
                        match spec_lookup(old(self).game.game_objs@, key) {
                            Some(GameObj::Castle(c)) => pe.id == key && pe.name == c.name && pe.pos
                                == c.pos && pe.units.quantities@ == c.units@ && pe.peasants
                                == c.peasants,
                            _ => pe.id == 0 && pe.name@ == "undefined"@,
                        }
                    }
                },
            },
            cmd matches C2S4L::NewCastle(pos) ==> match player_lookup(
                old(self).players@,
                client_id,
            ) {
                Some(p) => if p.status is Init && old(self).game.id_counter < usize::MAX {
                    &&& r matches Some(L2S4C::Log(msg)) && msg@ == "Castle created successfully"@
                    &&& final(self).game.id_counter == old(self).game.id_counter + 1
                    &&& final(self).game.game_objs@.len() == old(self).game.game_objs@.len() + 1
                    &&& final(self).game.game_objs@.drop_last() == old(self).game.game_objs@
                    &&& final(self).game.game_objs@.last().0 == old(self).game.id_counter + 1
                    &&& final(self).game.game_objs@.last().1 matches GameObj::Castle(c) && c.name
                        == p.name && c.pos == pos && c.is_alive
                    &&& final(self).players@.len() == old(self).players@.len()
                    &&& forall|j: int|
                        0 <= j < old(self).players@.len() ==> #[trigger] final(self).players@[j]
                            == (if old(self).players@[j].0 == client_id {
                            (
                                client_id,
                                Player {
                                    castle_id: Some((old(self).game.id_counter + 1) as usize),
                                    status: PlayerStatus::Alive,
                                    ..p
                                },
                            )
                        } else {
                            old(self).players@[j]
                        })
                } else {
                    lobby_same(*old(self), *final(self)) && r is None
                },
                None => lobby_same(*old(self), *final(self)) && r is None,
            },
            cmd matches C2S4L::AttackCastle(target_id, e) ==> r is None && final(self).players@
                == old(self).players@ && match player_lookup(old(self).players@, client_id) {
                Some(p) => match p.castle_id {
                    Some(cid) => if p.status is Alive && old(self).game.id_counter < usize::MAX {
                        spec_attack_outcome(
                            old(self).game,
                            final(self).game,
                            cid,
                            target_id,
                            spec_group_of_export(e),
                        )
                    } else {
                        spec_same_state(old(self).game, final(self).game)
                    },
                    None => spec_same_state(old(self).game, final(self).game),
                },
                None => spec_same_state(old(self).game, final(self).game),
            },
            cmd matches C2S4L::SendUnits(target_pos, e) ==> r is None && final(self).players@
                == old(self).players@ && match player_lookup(old(self).players@, client_id) {
                Some(p) => match p.castle_id {
                    Some(cid) => if p.status is Alive && old(self).game.id_counter < usize::MAX {
                        spec_send_outcome(
                            old(self).game,
                            final(self).game,
                            cid,
                            target_pos,
                            spec_group_of_export(e),
                            None,
                        )
                    } else {
                        spec_same_state(old(self).game, final(self).game)
                    },
                    None => spec_same_state(old(self).game, final(self).game),
                },
                None => spec_same_state(old(self).game, final(self).game),
            },
    {
        match cmd {
            C2S4L::NewCastle(pos) => {
                let pi = match self.player_index(client_id) {
                    Some(pi) => pi,
                    None => {
                        return None;
                    },
                };
                let is_init = matches!(self.players[pi].1.status, PlayerStatus::Init);
                if !is_init {
                    return None;
                }
                if self.game.id_counter == usize::MAX {
                    return None;
                }
                let name = self.players[pi].1.name.clone();
                let castle_id = self.game.add_player_castle(name, pos);
                let ghost pre_players = self.players@;
                let (cid, mut p) = self.players.remove(pi);
                p.set_castle_id(castle_id);
                self.players.insert(pi, (cid, p));
                proof {
                    assert(self.players@ =~= pre_players.update(
                        pi as int,
                        self.players@[pi as int],
                    ));
                }
                Some(L2S4C::Log("Castle created successfully".to_string()))
            },
            C2S4L::AttackCastle(target_id, unit_group_e) => {
                let pi = match self.player_index(client_id) {
                    Some(pi) => pi,
                    None => {
                        return None;
                    },
                };
                let is_player_alive = matches!(self.players[pi].1.status, PlayerStatus::Alive);
                if !is_player_alive {
                    return None;
                }
                let castle_id = match self.players[pi].1.castle_id {
                    Some(cid) => cid,
                    None => {
                        return None;
                    },
                };
                if self.game.id_counter == usize::MAX {
                    return None;
                }
                self.game.attack_castle(castle_id, target_id, unit_group_e);
                None
            },
            C2S4L::SendUnits(target_pos, unit_group_e) => {
                let pi = match self.player_index(client_id) {
                    Some(pi) => pi,
                    None => {
                        return None;
                    },
                };
                let is_player_alive = matches!(self.players[pi].1.status, PlayerStatus::Alive);
                if !is_player_alive {
                    return None;
                }
                let castle_id = match self.players[pi].1.castle_id {
                    Some(cid) => cid,
                    None => {
                        return None;
                    },
                };
                if self.game.id_counter == usize::MAX {
                    return None;
                }
                self.game.send_troops(castle_id, target_pos, unit_group_e, None);
                None
            },
            C2S4L::GiveMap => Some(L2S4C::MapTiles(self.game.export_map())),
            C2S4L::GiveObjs => Some(L2S4C::GameObjs(self.game.export_objs())),
            C2S4L::GivePlayer => {
                let pi = match self.player_index(client_id) {
                    Some(pi) => pi,
                    None => {
                        return None;
                    },
                };
                if matches!(self.players[pi].1.status, PlayerStatus::Init) {
                    return Some(L2S4C::CreateCastle);
                }
                let castle_id = match self.players[pi].1.castle_id {
                    Some(cid) => cid,
                    None => 0,
                };
                Some(L2S4C::Player(self.game.export_player(castle_id)))
            },
        }
    }
}

} // verus!
