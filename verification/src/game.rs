//! One game instance: the map, the id-keyed table of game objects, and the
//! orchestration of simulation ticks, attacks and troop movements.

use vstd::prelude::*;

use crate::GameCoord;
use crate::GameID;
use crate::castle::Castle;
use crate::exports::GameObjE;
use crate::exports::PlayerE;
use crate::exports::TileE;
use crate::exports::UnitGroupE;
use crate::game_obj::CastleView;
use crate::game_obj::DeployedUnitsView;
use crate::game_obj::GameObj;
use crate::game_obj::GameObjView;
use crate::map::GameMap;
use crate::pathfinding::path_ok;
use crate::units::DeployedUnits;
use crate::units::UnitGroup;
use crate::units::spec_has_enough;
use crate::units::spec_sat_add;
use crate::units::spec_sat_sub;
use crate::units::spec_strength;
use vstd::pervasive::unreached;

verus! {

/// The object stored under an id in the table, if any: ids are unique, and
/// the first match is the only one.
pub open spec fn spec_lookup(s: Seq<(GameID, GameObj)>, id: GameID) -> Option<GameObj>
    decreases s.len(),
{
    if s.len() == 0 {
        None
    } else if s[0].0 == id {
        Some(s[0].1)
    } else {
        spec_lookup(s.drop_first(), id)
    }
}

/// When the first entry holding `id` sits at index `i`, the lookup yields
/// that entry's object.
pub proof fn lemma_lookup_at_index(s: Seq<(GameID, GameObj)>, id: GameID, i: int)
    requires
        0 <= i < s.len(),
        s[i].0 == id,
        forall|j: int| 0 <= j < i ==> s[j].0 != id,
    ensures
        spec_lookup(s, id) == Some(s[i].1),
    decreases s.len(),
{
    if i > 0 {
        lemma_lookup_at_index(s.drop_first(), id, i - 1);
    }
}

/// When no entry holds `id`, the lookup yields nothing.
pub proof fn lemma_lookup_none(s: Seq<(GameID, GameObj)>, id: GameID)
    requires
        forall|j: int| 0 <= j < s.len() ==> s[j].0 != id,
    ensures
        spec_lookup(s, id) is None,
    decreases s.len(),
{
    if s.len() > 0 {
        lemma_lookup_none(s.drop_first(), id);
    }
}

/// Holds the entire state of one game session and drives its simulation.
#[derive(Debug)]
pub struct Game {
    pub map: GameMap,
    pub game_objs: Vec<(GameID, GameObj)>,
    pub id_counter: GameID,
}

impl Game {
    /// The map is well formed; ids in the table are strictly increasing
    /// (so unique) and never ahead of the id counter; every object is well
    /// formed.
    pub open spec fn wf(&self) -> bool {
        &&& self.map.wf()
        &&& forall|i: int, j: int|
            0 <= i < j < self.game_objs@.len() ==> (#[trigger] self.game_objs@[i].0) < (
            #[trigger] self.game_objs@[j].0)
        &&& forall|i: int|
            0 <= i < self.game_objs@.len() ==> (#[trigger] self.game_objs@[i].0)
                <= self.id_counter
        &&& forall|i: int| 0 <= i < self.game_objs@.len() ==> (#[trigger] self.game_objs@[i].1).wf()
    }

    /// A fresh game over a newly generated map, with an empty object table.
    pub fn new() -> (r: Self)
        ensures
            r.wf(),
            r.game_objs@.len() == 0,
            r.id_counter == 0,
    {
        let map = GameMap::new();
        let game_objs: Vec<(GameID, GameObj)> = Vec::new();
        let id_counter: GameID = 0;

        Self { map, game_objs, id_counter }
    }

    /// A fresh game over the given map, with an empty object table.
    pub fn with_map(map: GameMap) -> (r: Self)
        requires
            map.wf(),
        ensures
            r.wf(),
            r.map == map,
            r.game_objs@.len() == 0,
            r.id_counter == 0,
    {
        let game_objs: Vec<(GameID, GameObj)> = Vec::new();
        Self { map, game_objs, id_counter: 0 }
    }

    /// Allocate the next object id; ids are assigned monotonically and
    /// never reused.
    fn new_id(&mut self) -> (r: GameID)
        requires
            old(self).id_counter < usize::MAX,
        ensures
            final(self).id_counter == old(self).id_counter + 1,
            r == final(self).id_counter,
            final(self).map == old(self).map,
            final(self).game_objs == old(self).game_objs,
    {
        self.id_counter = self.id_counter + 1;
        self.id_counter
    }

    /// Index of the entry holding `id`, tied to the spec-level lookup.
    fn index_of(&self, id: GameID) -> (r: Option<usize>)
        ensures
            r matches Some(i) ==> i < self.game_objs@.len() && self.game_objs@[i as int].0 == id
                && spec_lookup(self.game_objs@, id) == Some(self.game_objs@[i as int].1) && (
            forall|j: int| 0 <= j < i ==> (#[trigger] self.game_objs@[j]).0 != id),
            r is None ==> spec_lookup(self.game_objs@, id) is None && (forall|j: int|
                0 <= j < self.game_objs@.len() ==> (#[trigger] self.game_objs@[j]).0 != id),
    {
        let mut i: usize = 0;
        let n = self.game_objs.len();
        while i < n
            invariant
                i <= n,
                n == self.game_objs@.len(),
                forall|j: int| 0 <= j < i ==> (#[trigger] self.game_objs@[j].0) != id,
            decreases n - i,
        {
            if self.game_objs[i].0 == id {
                proof {
                    lemma_lookup_at_index(self.game_objs@, id, i as int);
                }
                return Some(i);
            }
            i = i + 1;
        }
        proof {
            lemma_lookup_none(self.game_objs@, id);
        }
        None
    }

    /// Insert a new castle for a player and hand back its id; the rest of
    /// the table and the map stay as they were.
    pub fn add_player_castle(&mut self, name: String, pos: GameCoord) -> (r: GameID)
        requires
            old(self).wf(),
            old(self).id_counter < usize::MAX,
        ensures
            final(self).wf(),
            final(self).map == old(self).map,
            r == old(self).id_counter + 1,
            final(self).id_counter == r,
            final(self).game_objs@.len() == old(self).game_objs@.len() + 1,
            final(self).game_objs@.drop_last() == old(self).game_objs@,
            final(self).game_objs@.last().0 == r,
            final(self).game_objs@.last().1 matches GameObj::Castle(c) && c.name == name && c.pos
                == pos && c.units@ == seq![6u16, 0u16, 0u16] && c.peasants == 2 && c.is_alive,
    {
        let id = self.new_id();

        let castle = Castle::new(name, pos);
        self.game_objs.push((id, GameObj::Castle(castle)));
        proof {
            assert(final(self).game_objs@.drop_last() =~= old(self).game_objs@);
        }
        id
    }

    /// Snapshot of the full tile grid.
    pub fn export_map(&self) -> (r: Vec<Vec<TileE>>)
        requires
            self.wf(),
        ensures
            r@.len() == self.map.tiles.rows,
            forall|y: int|
                0 <= y < self.map.tiles.rows ==> (#[trigger] r@[y]@).len() == self.map.tiles.cols,
            forall|y: int, x: int|
                0 <= y < self.map.tiles.rows && 0 <= x < self.map.tiles.cols ==> #[trigger] r@[y]@[x]
                    == self.map.tiles.at(y, x),
    {
        self.map.export()
    }

    /// Snapshot of every game object, keyed by id, in table order.
    pub fn export_objs(&self) -> (r: Vec<(GameID, GameObjE)>)
        requires
            self.wf(),
        ensures
            r@.len() == self.game_objs@.len(),
            forall|i: int|
                0 <= i < r@.len() ==> (#[trigger] r@[i]).0 == self.game_objs@[i].0 && r@[i].1
                    == self.game_objs@[i].1.spec_export(),
    {
        let mut out: Vec<(GameID, GameObjE)> = Vec::new();
        let n = self.game_objs.len();
        let mut i: usize = 0;
        while i < n
            invariant
                i <= n,
                self.wf(),
                n == self.game_objs@.len(),
                out@.len() == i,
                forall|j: int|
                    0 <= j < i ==> (#[trigger] out@[j]).0 == self.game_objs@[j].0 && out@[j].1
                        == self.game_objs@[j].1.spec_export(),
            decreases n - i,
        {
            let obj_e = self.game_objs[i].1.export();
            out.push((self.game_objs[i].0, obj_e));
            i = i + 1;
        }
        out
    }

    /// Per-player view: the castle stored under the given id, or the
    /// placeholder view when the id does not resolve to a castle.
    pub fn export_player(&self, castle_id: GameID) -> (r: PlayerE)
        requires
            self.wf(),
        ensures
            spec_lookup(self.game_objs@, castle_id) matches Some(GameObj::Castle(c)) ==> r.id
                == castle_id && r.name == c.name && r.pos == c.pos && r.units.quantities@
                == c.units@ && r.peasants == c.peasants,
            !(spec_lookup(self.game_objs@, castle_id) matches Some(GameObj::Castle(_))) ==> r.id
                == 0 && r.name@ == "undefined"@ && r.units.quantities@ == seq![0u16, 0u16, 0u16]
                && r.peasants == 0,
    {
        match self.index_of(castle_id) {
            Some(i) => match &self.game_objs[i].1 {
                GameObj::Castle(castle) => PlayerE {
                    id: castle_id,
                    name: castle.name.clone(),
                    pos: castle.pos,
                    units: castle.units.export(),
                    peasants: castle.peasants,
                },
                _ => PlayerE::undef(),
            },
            None => PlayerE::undef(),
        }
    }

    /// Commit troops from the attacker's castle toward a map position.
    /// The commitment is all-or-nothing and instantaneous; travel is
    /// simulated delay. A missing attacker, an empty group, an insufficient
    /// garrison, or an unreachable target drops the command with nothing
    /// changed.
    pub fn send_troops(
        &mut self,
        attacker_id: GameID,
        target_pos: GameCoord,
        unit_group_e: UnitGroupE,
        target_id: Option<GameID>,
    )
        requires
            old(self).wf(),
            old(self).id_counter < usize::MAX,
        ensures
            final(self).wf(),
            spec_send_outcome(
                *old(self),
                *final(self),
                attacker_id,
                target_pos,
                spec_group_of_export(unit_group_e),
                target_id,
            ),
    {
        let ghost g = spec_group_of_export(unit_group_e);
        let i = match self.index_of(attacker_id) {
            Some(i) => i,
            None => {
                return ;
            },
        };

        let unit_group = UnitGroup::from_export(unit_group_e);
        proof {
            assert(unit_group@ =~= g);
        }
        if unit_group.is_empty() {
            proof {
                assert(g =~= seq![0u16, 0u16, 0u16]);
            }
            return ;
        }
        proof {
            assert(g != seq![0u16, 0u16, 0u16]) by {
                assert(!(forall|k: int| 0 <= k < 3 ==> unit_group@[k] == 0));
                let k = choose|k: int| 0 <= k < 3 && unit_group@[k] != 0;
                assert(g[k] != seq![0u16, 0u16, 0u16][k]);
            }
        }

        let attacker_pos = match &self.game_objs[i].1 {
            GameObj::Castle(c) => {
                if !c.units.has_enough(&unit_group) {
                    return ;
                }
                c.pos
            },
            _ => {
                return ;
            },
        };

        let path = match self.map.find_path(attacker_pos, target_pos) {
            Some(p) => p,
            None => {
                return ;
            },
        };

        let ghost pre = *self;
        let (cid, cobj) = self.game_objs.remove(i);
        match cobj {
            GameObj::Castle(mut castle) => {
                castle.units.subtract_if_enough(&unit_group);
                self.game_objs.insert(i, (cid, GameObj::Castle(castle)));
            },
            _ => {
                unreached::<()>();
            },
        }
        proof {
            assert(self.game_objs@ =~= pre.game_objs@.update(
                i as int,
                self.game_objs@[i as int],
            ));
        }
        let id = self.new_id();
        let deployed = DeployedUnits::new(attacker_id, target_id, path, unit_group);
        self.game_objs.push((id, GameObj::DeployedUnits(deployed)));
        proof {
            let post = *self;
            assert forall|j: int|
                0 <= j < pre.game_objs@.len() && (#[trigger] pre.game_objs@[j]).0
                    != attacker_id implies post.game_objs@[j] == pre.game_objs@[j] by {}
            assert(spec_troops_sent(pre, post, attacker_id, target_pos, g, target_id));
        }
    }

    /// Commit troops from the attacker's castle against another castle. The
    /// target's position is resolved first; a command naming anything but a
    /// live table entry holding a castle is dropped with nothing changed.
    pub fn attack_castle(
        &mut self,
        attacker_id: GameID,
        target_id: GameID,
        unit_group_e: UnitGroupE,
    )
        requires
            old(self).wf(),
            old(self).id_counter < usize::MAX,
        ensures
            final(self).wf(),
            spec_attack_outcome(
                *old(self),
                *final(self),
                attacker_id,
                target_id,
                spec_group_of_export(unit_group_e),
            ),
    {
        let target_pos = match self.index_of(target_id) {
            Some(i) => match &self.game_objs[i].1 {
                GameObj::Castle(c) => c.pos,
                _ => {
                    return ;
                },
            },
            None => {
                return ;
            },
        };
        self.send_troops(attacker_id, target_pos, unit_group_e, Some(target_id));
    }

    /// One simulation tick. Movement for every agent is applied first; only
    /// agents already at a path end when the tick began are resolved: a
    /// pending outbound agent flips home after its combat is recorded, a
    /// pending returning agent merges its group back into its owner's
    /// garrison and leaves the table; then recorded combats fell any target
    /// castle whose garrison is weaker than its attacker.
    pub fn step(&mut self)
        requires
            old(self).wf(),
        ensures
            final(self).wf(),
            final(self).map == old(self).map,
            final(self).id_counter == old(self).id_counter,
            table_view(final(self).game_objs@) == spec_step(table_view(old(self).game_objs@)),
    {
        let ghost pre_objs = old(self).game_objs@;
        let ghost s0 = table_view(pre_objs);

        let mut ticked: Vec<(GameID, GameObj)> = Vec::new();
        let mut homes: Vec<(GameID, GameID)> = Vec::new();
        let mut targets: Vec<(GameID, u32)> = Vec::new();

        while self.game_objs.len() > 0
            invariant
                pre_objs == old(self).game_objs@,
                s0 == table_view(pre_objs),
                old(self).wf(),
                self.map == old(self).map,
                self.id_counter == old(self).id_counter,
                ticked@.len() + self.game_objs@.len() == pre_objs.len(),
                self.game_objs@ == pre_objs.skip(ticked@.len() as int),
                forall|i: int|
                    0 <= i < ticked@.len() ==> (#[trigger] ticked@[i]).0 == pre_objs[i].0
                        && ticked@[i].1.wf(),
                table_view(ticked@) == tick_table(s0.take(ticked@.len() as int)),
                homes@ == homes_v(s0.take(ticked@.len() as int)),
                targets@ == targets_v(s0.take(ticked@.len() as int)),
            decreases self.game_objs@.len(),
        {
            let ghost k = ticked@.len() as int;
            let (id, obj) = self.game_objs.remove(0);
            proof {
                assert(pre_objs.skip(k)[0] == pre_objs[k]);
                assert(self.game_objs@ =~= pre_objs.skip(k + 1));
                assert(s0[k] == (pre_objs[k].0, pre_objs[k].1@));
                assert(pre_objs[k].1.wf());
            }
            let ghost pre_ticked = ticked@;
            match obj {
                GameObj::DeployedUnits(mut d) => {
                    if d.pending() {
                        if d.returning {
                            homes.push((id, d.owner_id));
                        } else {
                            if let Some(t) = d.target_id {
                                targets.push((t, d.get_strength()));
                            }
                            d.turn_back();
                        }
                    } else {
                        d.move_along_path();
                    }
                    ticked.push((id, GameObj::DeployedUnits(d)));
                },
                other => {
                    ticked.push((id, other));
                },
            }
            proof {
                assert(s0.take(k + 1) =~= s0.take(k).push(s0[k]));
                lemma_homes_push(s0.take(k), s0[k]);
                lemma_targets_push(s0.take(k), s0[k]);
                assert(ticked@.len() == k + 1);
                assert(ticked@[k].0 == s0[k].0);
                assert(ticked@[k].1@ =~~= tick_v(s0[k].1));
                assert forall|i: int| 0 <= i < k + 1 implies #[trigger] table_view(ticked@)[i]
                    == tick_table(s0.take(k + 1))[i] by {
                    if i < k {
                        assert(ticked@[i] == pre_ticked[i]);
                        assert(table_view(pre_ticked)[i] == tick_table(s0.take(k))[i]);
                        assert(tick_table(s0.take(k))[i] == tick_table(s0.take(k + 1))[i]);
                    }
                }
                assert(table_view(ticked@) =~= tick_table(s0.take(k + 1)));
                assert(homes@ =~= homes_v(s0.take(k + 1)));
                assert(targets@ =~= targets_v(s0.take(k + 1)));
            }
        }
        self.game_objs = ticked;
        proof {
            assert(s0.take(s0.len() as int) =~= s0);
            assert(self.wf());
        }
        let ghost s1 = table_view(self.game_objs@);

        let hn = homes.len();
        let mut h: usize = 0;
        while h < hn
            invariant
                old(self).wf(),
                self.wf(),
                self.map == old(self).map,
                self.id_counter == old(self).id_counter,
                hn == homes@.len(),
                h <= hn,
                table_view(self.game_objs@) == resolve_homes_v(s1, homes@.take(h as int)),
            decreases hn - h,
        {
            let (uid, owner) = homes[h];
            let ghost cur = table_view(self.game_objs@);
            match self.index_of(uid) {
                Some(i) => {
                    let is_dep = matches!(&self.game_objs[i].1, GameObj::DeployedUnits(_));
                    if is_dep {
                        proof {
                            lemma_lookup_v_at_index(cur, uid, i as int);
                            lemma_remove_id_v_at(cur, uid, i as int);
                        }
                        let (_rid, robj) = self.game_objs.remove(i);
                        let dep = match robj {
                            GameObj::DeployedUnits(dep) => dep,
                            _ => unreached(),
                        };
                        let ghost mid = table_view(self.game_objs@);
                        proof {
                            assert(mid =~= remove_id_v(cur, uid));
                            assert(self.wf());
                        }
                        match self.index_of(owner) {
                            Some(j) => {
                                let is_castle = matches!(&self.game_objs[j].1, GameObj::Castle(_));
                                if is_castle {
                                    proof {
                                        lemma_merge_castle_v_at(
                                            mid,
                                            owner,
                                            dep.unit_group@,
                                            j as int,
                                        );
                                    }
                                    let ghost before_merge = self.game_objs@;
                                    let (cid2, cobj2) = self.game_objs.remove(j);
                                    match cobj2 {
                                        GameObj::Castle(mut c) => {
                                            c.units.saturating_add(&dep.unit_group);
                                            self.game_objs.insert(j, (cid2, GameObj::Castle(c)));
                                        },
                                        _ => {
                                            unreached::<()>();
                                        },
                                    }
                                    proof {
                                        assert(self.game_objs@ =~= before_merge.update(
                                            j as int,
                                            self.game_objs@[j as int],
                                        ));
                                    }
                                } else {
                                    proof {
                                        lemma_lookup_v_at_index(mid, owner, j as int);
                                        lemma_merge_castle_v_at(
                                            mid,
                                            owner,
                                            dep.unit_group@,
                                            j as int,
                                        );
                                    }
                                }
                            },
                            None => {
                                proof {
                                    lemma_merge_castle_v_none(mid, owner, dep.unit_group@);
                                }
                            },
                        }
                        proof {
                            assert(table_view(self.game_objs@) =~= resolve_home_one_v(
                                cur,
                                homes@[h as int],
                            ));
                        }
                    } else {
                        proof {
                            lemma_lookup_v_at_index(cur, uid, i as int);
                        }
                    }
                },
                None => {
                    proof {
                        lemma_lookup_v_none(cur, uid);
                    }
                },
            }
            proof {
                lemma_resolve_homes_push(s1, homes@.take(h as int), homes@[h as int]);
                assert(homes@.take(h as int + 1) =~= homes@.take(h as int).push(homes@[h as int]));
                assert(table_view(self.game_objs@) =~= resolve_homes_v(
                    s1,
                    homes@.take(h as int + 1),
                ));
            }
            h = h + 1;
        }
        proof {
            assert(homes@.take(hn as int) =~= homes@);
        }
        let ghost s2 = table_view(self.game_objs@);

        let tn = targets.len();
        let mut t: usize = 0;
        while t < tn
            invariant
                old(self).wf(),
                self.wf(),
                self.map == old(self).map,
                self.id_counter == old(self).id_counter,
                tn == targets@.len(),
                t <= tn,
                table_view(self.game_objs@) == resolve_kills_v(s2, targets@.take(t as int)),
            decreases tn - t,
        {
            let (target_id, strength) = targets[t];
            let ghost cur = table_view(self.game_objs@);
            match self.index_of(target_id) {
                Some(j) => {
                    proof {
                        lemma_kill_castle_v_at(cur, target_id, strength, j as int);
                    }
                    let is_castle = matches!(&self.game_objs[j].1, GameObj::Castle(_));
                    if is_castle {
                        let (cid2, cobj2) = self.game_objs.remove(j);
                        match cobj2 {
                            GameObj::Castle(mut c) => {
                                if c.units.get_strength() < strength {
                                    c.is_alive = false;
                                }
                                self.game_objs.insert(j, (cid2, GameObj::Castle(c)));
                            },
                            _ => {
                                unreached::<()>();
                            },
                        }
                    }
                },
                None => {
                    proof {
                        lemma_kill_castle_v_none(cur, target_id, strength);
                    }
                },
            }
            proof {
                lemma_resolve_kills_push(s2, targets@.take(t as int), targets@[t as int]);
                assert(targets@.take(t as int + 1) =~= targets@.take(t as int).push(
                    targets@[t as int],
                ));
                assert(table_view(self.game_objs@) =~= resolve_kills_v(
                    s2,
                    targets@.take(t as int + 1),
                ));
            }
            t = t + 1;
        }
        proof {
            assert(targets@.take(tn as int) =~= targets@);
            assert(table_view(self.game_objs@) =~= spec_step(s0));
        }
    }

    /// True exactly when the id resolves to a castle that is still alive.
    pub fn is_alive(&self, castle_id: &GameID) -> (r: bool)
        requires
            self.wf(),
        ensures
            r == (spec_lookup(self.game_objs@, *castle_id) matches Some(GameObj::Castle(c))
                && c.is_alive),
    {
        if let Some(i) = self.index_of(*castle_id) {
            if let GameObj::Castle(castle) = &self.game_objs[i].1 {
                return castle.is_alive;
            }
        }
        false
    }
}

/// The per-type counts an exported group snapshot stands for: values beyond
/// the supported types are ignored, missing ones are zero.
pub open spec fn spec_group_of_export(e: UnitGroupE) -> Seq<u16> {
    seq![
        if e.quantities@.len() > 0 {
            e.quantities@[0]
        } else {
            0u16
        },
        if e.quantities@.len() > 1 {
            e.quantities@[1]
        } else {
            0u16
        },
        if e.quantities@.len() > 2 {
            e.quantities@[2]
        } else {
            0u16
        },
    ]
}

/// Nothing observable about the game changed.
pub open spec fn spec_same_state(pre: Game, post: Game) -> bool {
    &&& post.map == pre.map
    &&& post.game_objs@ == pre.game_objs@
    &&& post.id_counter == pre.id_counter
}

/// A troop commitment went through: the committed counts left the
/// attacker's garrison at once, and a fresh outbound deployed-units agent
/// was appended under a fresh id, carrying them along a well-formed
/// obstacle-free path from the attacker's castle to the target position.
pub open spec fn spec_troops_sent(
    pre: Game,
    post: Game,
    attacker_id: GameID,
    target_pos: GameCoord,
    g: Seq<u16>,
    target_id: Option<GameID>,
) -> bool {
    &&& spec_lookup(pre.game_objs@, attacker_id) matches Some(GameObj::Castle(c)) && {
        &&& post.map == pre.map
        &&& post.id_counter == pre.id_counter + 1
        &&& post.game_objs@.len() == pre.game_objs@.len() + 1
        &&& post.game_objs@.last().0 == post.id_counter
        &&& post.game_objs@.last().1 matches GameObj::DeployedUnits(d) && {
            &&& d.owner_id == attacker_id
            &&& d.target_id == target_id
            &&& !d.returning
            &&& d.path_index == 0
            &&& path_ok(d.path@, pre.map.obstacles, c.pos, target_pos)
            &&& d.unit_group@ == g
        }
        &&& forall|j: int|
            0 <= j < pre.game_objs@.len() && (#[trigger] pre.game_objs@[j]).0 != attacker_id
                ==> post.game_objs@[j] == pre.game_objs@[j]
        &&& forall|j: int|
            0 <= j < pre.game_objs@.len() && (#[trigger] pre.game_objs@[j]).0 == attacker_id ==> {
                &&& post.game_objs@[j].0 == attacker_id
                &&& post.game_objs@[j].1 matches GameObj::Castle(c2) && c2.name == c.name
                    && c2.pos == c.pos && c2.peasants == c.peasants && c2.is_alive == c.is_alive
                    && c2.units@ == seq![
                    spec_sat_sub(c.units@[0], g[0]),
                    spec_sat_sub(c.units@[1], g[1]),
                    spec_sat_sub(c.units@[2], g[2]),
                ]
            }
    }
}

/// What an attack command may do: nothing when the target id does not hold
/// a castle; otherwise a troop commitment toward the target castle's
/// position.
pub open spec fn spec_attack_outcome(
    pre: Game,
    post: Game,
    attacker_id: GameID,
    target_id: GameID,
    g: Seq<u16>,
) -> bool {
    &&& !(spec_lookup(pre.game_objs@, target_id) matches Some(GameObj::Castle(_)))
        ==> spec_same_state(pre, post)
    &&& (spec_lookup(pre.game_objs@, target_id) matches Some(GameObj::Castle(t))
        ==> spec_send_outcome(pre, post, attacker_id, t.pos, g, Some(target_id)))
}

/// What a troop command does: on a missing attacker castle, an empty
/// group, or an insufficient garrison, nothing changed for certain; and
/// when none of those hold and any obstacle-free path from the attacker's
/// castle to the target position exists, the commitment went through for
/// certain.
pub open spec fn spec_send_outcome(
    pre: Game,
    post: Game,
    attacker_id: GameID,
    target_pos: GameCoord,
    g: Seq<u16>,
    target_id: Option<GameID>,
) -> bool {
    &&& spec_same_state(pre, post) || spec_troops_sent(
        pre,
        post,
        attacker_id,
        target_pos,
        g,
        target_id,
    )
    &&& !(spec_lookup(pre.game_objs@, attacker_id) matches Some(GameObj::Castle(_)))
        ==> spec_same_state(pre, post)
    &&& g == seq![0u16, 0u16, 0u16] ==> spec_same_state(pre, post)
    &&& (spec_lookup(pre.game_objs@, attacker_id) matches Some(GameObj::Castle(c))
        && !spec_has_enough(c.units@, g) ==> spec_same_state(pre, post))
    &&& (spec_lookup(pre.game_objs@, attacker_id) matches Some(GameObj::Castle(c)) && g != seq![
        0u16,
        0u16,
        0u16,
    ] && spec_has_enough(c.units@, g) && (exists|p: Seq<GameCoord>|
        path_ok(p, pre.map.obstacles, c.pos, target_pos)) ==> spec_troops_sent(
        pre,
        post,
        attacker_id,
        target_pos,
        g,
        target_id,
    ))
}

/// Spec-level view of the object table: each id with its object's view.
pub open spec fn table_view(s: Seq<(GameID, GameObj)>) -> Seq<(GameID, GameObjView)> {
    Seq::new(s.len(), |i: int| (s[i].0, s[i].1@))
}

/// The view stored under an id, if any: the first match counts.
pub open spec fn lookup_v(s: Seq<(GameID, GameObjView)>, id: GameID) -> Option<GameObjView>
    decreases s.len(),
{
    if s.len() == 0 {
        None
    } else if s[0].0 == id {
        Some(s[0].1)
    } else {
        lookup_v(s.drop_first(), id)
    }
}

/// When the first entry holding `id` sits at index `i`, the view lookup
/// yields that entry's view.
proof fn lemma_lookup_v_at_index(s: Seq<(GameID, GameObjView)>, id: GameID, i: int)
    requires
        0 <= i < s.len(),
        s[i].0 == id,
        forall|j: int| 0 <= j < i ==> s[j].0 != id,
    ensures
        lookup_v(s, id) == Some(s[i].1),
    decreases s.len(),
{
    if i > 0 {
        lemma_lookup_v_at_index(s.drop_first(), id, i - 1);
    }
}

/// When no entry holds `id`, the view lookup yields nothing.
proof fn lemma_lookup_v_none(s: Seq<(GameID, GameObjView)>, id: GameID)
    requires
        forall|j: int| 0 <= j < s.len() ==> s[j].0 != id,
    ensures
        lookup_v(s, id) is None,
    decreases s.len(),
{
    if s.len() > 0 {
        lemma_lookup_v_none(s.drop_first(), id);
    }
}

/// One movement tick of a single object: a deployed agent away from its
/// path's end takes one step; a pending outbound agent flips onto its
/// return leg; everything else is untouched.
pub open spec fn tick_v(o: GameObjView) -> GameObjView {
    match o {
        GameObjView::DeployedUnits(d) => {
            if d.pending() {
                if !d.returning {
                    GameObjView::DeployedUnits(DeployedUnitsView { returning: true, ..d })
                } else {
                    o
                }
            } else {
                GameObjView::DeployedUnits(d.moved())
            }
        },
        _ => o,
    }
}

/// The table after the movement pass, entry by entry.
pub open spec fn tick_table(s: Seq<(GameID, GameObjView)>) -> Seq<(GameID, GameObjView)> {
    Seq::new(s.len(), |i: int| (s[i].0, tick_v(s[i].1)))
}

/// The home-arrival record of one entry: its id and its owner's id, when it
/// is a pending returning agent.
pub open spec fn home_of(e: (GameID, GameObjView)) -> Seq<(GameID, GameID)> {
    match e.1 {
        GameObjView::DeployedUnits(d) => if d.pending() && d.returning {
            seq![(e.0, d.owner_id)]
        } else {
            Seq::empty()
        },
        _ => Seq::empty(),
    }
}

/// The home-arrival records of the table, in table order.
pub open spec fn homes_v(s: Seq<(GameID, GameObjView)>) -> Seq<(GameID, GameID)>
    decreases s.len(),
{
    if s.len() == 0 {
        Seq::empty()
    } else {
        home_of(s[0]) + homes_v(s.drop_first())
    }
}

proof fn lemma_homes_push(s: Seq<(GameID, GameObjView)>, e: (GameID, GameObjView))
    ensures
        homes_v(s.push(e)) == homes_v(s) + home_of(e),
    decreases s.len(),
{
    if s.len() == 0 {
        assert(s.push(e).drop_first() =~= s);
        assert(homes_v(s.push(e)) =~= homes_v(s) + home_of(e));
    } else {
        assert(s.push(e).drop_first() =~= s.drop_first().push(e));
        lemma_homes_push(s.drop_first(), e);
        assert(homes_v(s.push(e)) =~= homes_v(s) + home_of(e));
    }
}

/// The combat record of one entry: its target's id and its own strength,
/// when it is a pending outbound agent with a target.
pub open spec fn target_of(e: (GameID, GameObjView)) -> Seq<(GameID, u32)> {
    match e.1 {
        GameObjView::DeployedUnits(d) => if d.pending() && !d.returning && d.target_id is Some {
            seq![(d.target_id->0, spec_strength(d.units))]
        } else {
            Seq::empty()
        },
        _ => Seq::empty(),
    }
}

/// The combat records of the table, in table order.
pub open spec fn targets_v(s: Seq<(GameID, GameObjView)>) -> Seq<(GameID, u32)>
    decreases s.len(),
{
    if s.len() == 0 {
        Seq::empty()
    } else {
        target_of(s[0]) + targets_v(s.drop_first())
    }
}

proof fn lemma_targets_push(s: Seq<(GameID, GameObjView)>, e: (GameID, GameObjView))
    ensures
        targets_v(s.push(e)) == targets_v(s) + target_of(e),
    decreases s.len(),
{
    if s.len() == 0 {
        assert(s.push(e).drop_first() =~= s);
        assert(targets_v(s.push(e)) =~= targets_v(s) + target_of(e));
    } else {
        assert(s.push(e).drop_first() =~= s.drop_first().push(e));
        lemma_targets_push(s.drop_first(), e);
        assert(targets_v(s.push(e)) =~= targets_v(s) + target_of(e));
    }
}

/// The table with the first entry under `id` taken out.
pub open spec fn remove_id_v(s: Seq<(GameID, GameObjView)>, id: GameID) -> Seq<
    (GameID, GameObjView),
>
    decreases s.len(),
{
    if s.len() == 0 {
        s
    } else if s[0].0 == id {
        s.drop_first()
    } else {
        seq![s[0]] + remove_id_v(s.drop_first(), id)
    }
}

proof fn lemma_remove_id_v_at(s: Seq<(GameID, GameObjView)>, id: GameID, i: int)
    requires
        0 <= i < s.len(),
        s[i].0 == id,
        forall|j: int| 0 <= j < i ==> s[j].0 != id,
    ensures
        remove_id_v(s, id) == s.remove(i),
    decreases s.len(),
{
    if i > 0 {
        lemma_remove_id_v_at(s.drop_first(), id, i - 1);
        assert(remove_id_v(s, id) =~= s.remove(i));
    } else {
        assert(remove_id_v(s, id) =~= s.remove(i));
    }
}

proof fn lemma_remove_id_v_none(s: Seq<(GameID, GameObjView)>, id: GameID)
    requires
        forall|j: int| 0 <= j < s.len() ==> s[j].0 != id,
    ensures
        remove_id_v(s, id) == s,
    decreases s.len(),
{
    if s.len() > 0 {
        lemma_remove_id_v_none(s.drop_first(), id);
        assert(remove_id_v(s, id) =~= s);
    }
}

/// Two garrisons merged: each type's counts added with saturation.
pub open spec fn merge_units(a: Seq<u16>, b: Seq<u16>) -> Seq<u16> {
    seq![spec_sat_add(a[0], b[0]), spec_sat_add(a[1], b[1]), spec_sat_add(a[2], b[2])]
}

/// The table after merging `q` into the garrison of the castle stored under
/// `owner`; nothing changes when the id is absent or holds no castle.
pub open spec fn merge_castle_v(s: Seq<(GameID, GameObjView)>, owner: GameID, q: Seq<u16>) -> Seq<
    (GameID, GameObjView),
>
    decreases s.len(),
{
    if s.len() == 0 {
        s
    } else if s[0].0 == owner {
        match s[0].1 {
            GameObjView::Castle(c) => seq![
                (owner, GameObjView::Castle(CastleView { units: merge_units(c.units, q), ..c })),
            ] + s.drop_first(),
            _ => s,
        }
    } else {
        seq![s[0]] + merge_castle_v(s.drop_first(), owner, q)
    }
}

proof fn lemma_merge_castle_v_at(s: Seq<(GameID, GameObjView)>, owner: GameID, q: Seq<u16>, i: int)
    requires
        0 <= i < s.len(),
        s[i].0 == owner,
        forall|j: int| 0 <= j < i ==> s[j].0 != owner,
    ensures
        s[i].1 matches GameObjView::Castle(c) ==> merge_castle_v(s, owner, q) == s.update(
            i,
            (owner, GameObjView::Castle(CastleView { units: merge_units(c.units, q), ..c })),
        ),
        !(s[i].1 is Castle) ==> merge_castle_v(s, owner, q) == s,
    decreases s.len(),
{
    if i > 0 {
        lemma_merge_castle_v_at(s.drop_first(), owner, q, i - 1);
        match s[i].1 {
            GameObjView::Castle(c) => {
                assert(merge_castle_v(s, owner, q) =~= s.update(
                    i,
                    (
                        owner,
                        GameObjView::Castle(CastleView { units: merge_units(c.units, q), ..c }),
                    ),
                ));
            },
            _ => {
                assert(merge_castle_v(s, owner, q) =~= s);
            },
        }
    } else {
        match s[i].1 {
            GameObjView::Castle(c) => {
                assert(merge_castle_v(s, owner, q) =~= s.update(
                    i,
                    (
                        owner,
                        GameObjView::Castle(CastleView { units: merge_units(c.units, q), ..c }),
                    ),
                ));
            },
            _ => {},
        }
    }
}

proof fn lemma_merge_castle_v_none(s: Seq<(GameID, GameObjView)>, owner: GameID, q: Seq<u16>)
    requires
        forall|j: int| 0 <= j < s.len() ==> s[j].0 != owner,
    ensures
        merge_castle_v(s, owner, q) == s,
    decreases s.len(),
{
    if s.len() > 0 {
        lemma_merge_castle_v_none(s.drop_first(), owner, q);
        assert(merge_castle_v(s, owner, q) =~= s);
    }
}

/// The table after one combat resolution against the castle stored under
/// `target`: the castle dies when its garrison strength is below the
/// attacker's; nothing changes when the id is absent or holds no castle.
pub open spec fn kill_castle_v(s: Seq<(GameID, GameObjView)>, target: GameID, strength: u32) -> Seq<
    (GameID, GameObjView),
>
    decreases s.len(),
{
    if s.len() == 0 {
        s
    } else if s[0].0 == target {
        match s[0].1 {
            GameObjView::Castle(c) => if spec_strength(c.units) < strength {
                seq![(target, GameObjView::Castle(CastleView { is_alive: false, ..c }))]
                    + s.drop_first()
            } else {
                s
            },
            _ => s,
        }
    } else {
        seq![s[0]] + kill_castle_v(s.drop_first(), target, strength)
    }
}

proof fn lemma_kill_castle_v_at(s: Seq<(GameID, GameObjView)>, target: GameID, strength: u32, i: int)
    requires
        0 <= i < s.len(),
        s[i].0 == target,
        forall|j: int| 0 <= j < i ==> s[j].0 != target,
    ensures
        s[i].1 matches GameObjView::Castle(c) ==> kill_castle_v(s, target, strength) == (
        if spec_strength(c.units) < strength {
            s.update(i, (target, GameObjView::Castle(CastleView { is_alive: false, ..c })))
        } else {
            s
        }),
        !(s[i].1 is Castle) ==> kill_castle_v(s, target, strength) == s,
    decreases s.len(),
{
    if i > 0 {
        lemma_kill_castle_v_at(s.drop_first(), target, strength, i - 1);
        match s[i].1 {
            GameObjView::Castle(c) => {
                if spec_strength(c.units) < strength {
                    assert(kill_castle_v(s, target, strength) =~= s.update(
                        i,
                        (target, GameObjView::Castle(CastleView { is_alive: false, ..c })),
                    ));
                } else {
                    assert(kill_castle_v(s, target, strength) =~= s);
                }
            },
            _ => {
                assert(kill_castle_v(s, target, strength) =~= s);
            },
        }
    } else {
        match s[i].1 {
            GameObjView::Castle(c) => {
                if spec_strength(c.units) < strength {
                    assert(kill_castle_v(s, target, strength) =~= s.update(
                        i,
                        (target, GameObjView::Castle(CastleView { is_alive: false, ..c })),
                    ));
                }
            },
            _ => {},
        }
    }
}

proof fn lemma_kill_castle_v_none(s: Seq<(GameID, GameObjView)>, target: GameID, strength: u32)
    requires
        forall|j: int| 0 <= j < s.len() ==> s[j].0 != target,
    ensures
        kill_castle_v(s, target, strength) == s,
    decreases s.len(),
{
    if s.len() > 0 {
        lemma_kill_castle_v_none(s.drop_first(), target, strength);
        assert(kill_castle_v(s, target, strength) =~= s);
    }
}

/// Resolve one home arrival: the agent leaves the table and its carried
/// group merges into its owner's garrison.
pub open spec fn resolve_home_one_v(s: Seq<(GameID, GameObjView)>, h: (GameID, GameID)) -> Seq<
    (GameID, GameObjView),
> {
    match lookup_v(s, h.0) {
        Some(GameObjView::DeployedUnits(d)) => merge_castle_v(remove_id_v(s, h.0), h.1, d.units),
        _ => s,
    }
}

/// Resolve every recorded home arrival, in order.
pub open spec fn resolve_homes_v(
    s: Seq<(GameID, GameObjView)>,
    hs: Seq<(GameID, GameID)>,
) -> Seq<(GameID, GameObjView)>
    decreases hs.len(),
{
    if hs.len() == 0 {
        s
    } else {
        resolve_homes_v(resolve_home_one_v(s, hs[0]), hs.drop_first())
    }
}

proof fn lemma_resolve_homes_push(
    s: Seq<(GameID, GameObjView)>,
    hs: Seq<(GameID, GameID)>,
    h: (GameID, GameID),
)
    ensures
        resolve_homes_v(s, hs.push(h)) == resolve_home_one_v(resolve_homes_v(s, hs), h),
    decreases hs.len(),
{
    if hs.len() == 0 {
        assert(hs.push(h).drop_first() =~= hs);
        assert(hs.push(h)[0] == h);
        assert(resolve_homes_v(s, hs.push(h)) == resolve_homes_v(resolve_home_one_v(s, h), hs));
        assert(resolve_homes_v(resolve_home_one_v(s, h), hs) == resolve_home_one_v(s, h));
        assert(resolve_homes_v(s, hs) == s);
    } else {
        assert(hs.push(h).drop_first() =~= hs.drop_first().push(h));
        assert(hs.push(h)[0] == hs[0]);
        lemma_resolve_homes_push(resolve_home_one_v(s, hs[0]), hs.drop_first(), h);
        assert(resolve_homes_v(s, hs.push(h)) == resolve_homes_v(
            resolve_home_one_v(s, hs[0]),
            hs.drop_first().push(h),
        ));
        assert(resolve_homes_v(s, hs) == resolve_homes_v(
            resolve_home_one_v(s, hs[0]),
            hs.drop_first(),
        ));
    }
}

/// Resolve every recorded combat, in order.
pub open spec fn resolve_kills_v(
    s: Seq<(GameID, GameObjView)>,
    ts: Seq<(GameID, u32)>,
) -> Seq<(GameID, GameObjView)>
    decreases ts.len(),
{
    if ts.len() == 0 {
        s
    } else {
        resolve_kills_v(kill_castle_v(s, ts[0].0, ts[0].1), ts.drop_first())
    }
}

proof fn lemma_resolve_kills_push(
    s: Seq<(GameID, GameObjView)>,
    ts: Seq<(GameID, u32)>,
    t: (GameID, u32),
)
    ensures
        resolve_kills_v(s, ts.push(t)) == kill_castle_v(resolve_kills_v(s, ts), t.0, t.1),
    decreases ts.len(),
{
    if ts.len() == 0 {
        assert(ts.push(t).drop_first() =~= ts);
        assert(ts.push(t)[0] == t);
        assert(resolve_kills_v(s, ts.push(t)) == resolve_kills_v(
            kill_castle_v(s, t.0, t.1),
            ts,
        ));
        assert(resolve_kills_v(kill_castle_v(s, t.0, t.1), ts) == kill_castle_v(s, t.0, t.1));
        assert(resolve_kills_v(s, ts) == s);
    } else {
        assert(ts.push(t).drop_first() =~= ts.drop_first().push(t));
        assert(ts.push(t)[0] == ts[0]);
        lemma_resolve_kills_push(kill_castle_v(s, ts[0].0, ts[0].1), ts.drop_first(), t);
        assert(resolve_kills_v(s, ts.push(t)) == resolve_kills_v(
            kill_castle_v(s, ts[0].0, ts[0].1),
            ts.drop_first().push(t),
        ));
        assert(resolve_kills_v(s, ts) == resolve_kills_v(
            kill_castle_v(s, ts[0].0, ts[0].1),
            ts.drop_first(),
        ));
    }
}

/// One full simulation tick over the table view: all movement first, then
/// the home-arrival merges, then the combats, each in table order, with the
/// arrivals and combats determined before any movement.
pub open spec fn spec_step(s: Seq<(GameID, GameObjView)>) -> Seq<(GameID, GameObjView)> {
    resolve_kills_v(resolve_homes_v(tick_table(s), homes_v(s)), targets_v(s))
}

/// One tick's combat, in isolation: when the only resolution records of
/// the tick are a single pending outbound agent aimed at a stored castle
/// (no home arrivals, no other combats), the step flips the agent onto its
/// return leg, fells the castle exactly when its garrison strength is
/// below the agent's, and only moves everything else.
pub proof fn lemma_step_resolves_combat(
    s: Seq<(GameID, GameObjView)>,
    i: int,
    j: int,
    t: GameID,
    u: DeployedUnitsView,
    c: CastleView,
)
    requires
        0 <= i < s.len(),
        0 <= j < s.len(),
        i != j,
        forall|a: int, b: int|
            0 <= a < b < s.len() ==> (#[trigger] s[a].0) != (#[trigger] s[b].0),
        s[i].1 == GameObjView::DeployedUnits(u),
        u.pending(),
        !u.returning,
        u.target_id == Some(t),
        s[j].0 == t,
        s[j].1 == GameObjView::Castle(c),
        homes_v(s) == Seq::<(GameID, GameID)>::empty(),
        targets_v(s) == seq![(t, spec_strength(u.units))],
    ensures
        spec_step(s).len() == s.len(),
        spec_step(s)[j] == (
            t,
            if spec_strength(c.units) < spec_strength(u.units) {
                GameObjView::Castle(CastleView { is_alive: false, ..c })
            } else {
                GameObjView::Castle(c)
            },
        ),
        spec_step(s)[i] == (
            s[i].0,
            GameObjView::DeployedUnits(DeployedUnitsView { returning: true, ..u }),
        ),
        forall|k: int|
            0 <= k < s.len() && k != j ==> #[trigger] spec_step(s)[k] == (s[k].0, tick_v(s[k].1)),
{
    let ticked = tick_table(s);
    let str0 = spec_strength(u.units);
    assert(resolve_homes_v(ticked, homes_v(s)) == ticked);
    assert(targets_v(s)[0] == (t, str0));
    assert(targets_v(s).drop_first() =~= Seq::<(GameID, u32)>::empty());
    assert(resolve_kills_v(ticked, targets_v(s)) == resolve_kills_v(
        kill_castle_v(ticked, t, str0),
        targets_v(s).drop_first(),
    ));
    assert(resolve_kills_v(kill_castle_v(ticked, t, str0), targets_v(s).drop_first())
        == kill_castle_v(ticked, t, str0));
    assert(ticked[j] == (t, GameObjView::Castle(c)));
    assert forall|b: int| 0 <= b < j implies ticked[b].0 != t by {
        assert(s[b].0 != s[j].0);
    }
    lemma_kill_castle_v_at(ticked, t, str0, j);
    assert(ticked[i] == (s[i].0, tick_v(s[i].1)));
    assert(tick_v(s[i].1) == GameObjView::DeployedUnits(
        DeployedUnitsView { returning: true, ..u },
    ));
    if spec_strength(c.units) < str0 {
        assert(spec_step(s) == ticked.update(
            j,
            (t, GameObjView::Castle(CastleView { is_alive: false, ..c })),
        ));
    } else {
        assert(spec_step(s) == ticked);
    }
}

/// One tick's home arrival, in isolation: when the only resolution record
/// of the tick is a single pending returning agent whose owner's castle is
/// stored (no combats), the step removes the agent from the table, merges
/// its carried group into the owner's garrison with saturation, and only
/// moves everything else, closing the ranks by one slot.
pub proof fn lemma_step_returns_home(
    s: Seq<(GameID, GameObjView)>,
    i: int,
    j: int,
    o: GameID,
    u: DeployedUnitsView,
    c: CastleView,
)
    requires
        0 <= i < s.len(),
        0 <= j < s.len(),
        i != j,
        forall|a: int, b: int|
            0 <= a < b < s.len() ==> (#[trigger] s[a].0) != (#[trigger] s[b].0),
        s[i].1 == GameObjView::DeployedUnits(u),
        u.pending(),
        u.returning,
        s[j].0 == o,
        s[j].1 == GameObjView::Castle(c),
        homes_v(s) == seq![(s[i].0, o)],
        targets_v(s) == Seq::<(GameID, u32)>::empty(),
    ensures
        spec_step(s).len() == s.len() - 1,
        forall|k: int| 0 <= k < spec_step(s).len() ==> (#[trigger] spec_step(s)[k]).0 != s[i].0,
        spec_step(s)[if j < i {
            j
        } else {
            j - 1
        }] == (o, GameObjView::Castle(CastleView { units: merge_units(c.units, u.units), ..c })),
        forall|k: int|
            0 <= k < spec_step(s).len() && k != (if j < i {
                j
            } else {
                j - 1
            }) ==> #[trigger] spec_step(s)[k] == (
                s[if k < i {
                    k
                } else {
                    k + 1
                }].0,
                tick_v(s[if k < i {
                    k
                } else {
                    k + 1
                }].1),
            ),
{
    let ticked = tick_table(s);
    let uid = s[i].0;
    assert(resolve_kills_v(resolve_homes_v(ticked, homes_v(s)), targets_v(s))
        == resolve_homes_v(ticked, homes_v(s)));
    assert(homes_v(s)[0] == (uid, o));
    assert(homes_v(s).drop_first() =~= Seq::<(GameID, GameID)>::empty());
    assert(resolve_homes_v(ticked, homes_v(s)) == resolve_homes_v(
        resolve_home_one_v(ticked, (uid, o)),
        homes_v(s).drop_first(),
    ));
    assert(resolve_homes_v(resolve_home_one_v(ticked, (uid, o)), homes_v(s).drop_first())
        == resolve_home_one_v(ticked, (uid, o)));
    assert(tick_v(s[i].1) == s[i].1);
    assert(ticked[i] == (uid, GameObjView::DeployedUnits(u)));
    assert forall|b: int| 0 <= b < i implies ticked[b].0 != uid by {
        assert(s[b].0 != s[i].0);
    }
    lemma_lookup_v_at_index(ticked, uid, i);
    lemma_remove_id_v_at(ticked, uid, i);
    let removed = ticked.remove(i);
    ticked.remove_ensures(i);
    let jj: int = if j < i {
        j
    } else {
        j - 1
    };
    assert(removed[jj] == ticked[j]);
    assert(ticked[j] == (o, GameObjView::Castle(c)));
    assert forall|b: int| 0 <= b < jj implies removed[b].0 != o by {
        let b0: int = if b < i {
            b
        } else {
            b + 1
        };
        assert(removed[b] == ticked[b0]);
        assert(ticked[b0].0 == s[b0].0);
        if b0 < j {
            assert(s[b0].0 != s[j].0);
        } else {
            assert(s[j].0 != s[b0].0);
        }
    }
    lemma_merge_castle_v_at(removed, o, u.units, jj);
    let merged = (o, GameObjView::Castle(CastleView { units: merge_units(c.units, u.units), ..c }));
    assert(spec_step(s) == removed.update(jj, merged));
    assert forall|k: int| 0 <= k < spec_step(s).len() implies (#[trigger] spec_step(s)[k]).0
        != s[i].0 by {
        let k0: int = if k < i {
            k
        } else {
            k + 1
        };
        assert(removed[k] == ticked[k0]);
        if k == jj {
            assert(spec_step(s)[k].0 == o);
            assert(s[j].0 != s[i].0);
        } else {
            assert(spec_step(s)[k] == ticked[k0]);
            assert(s[k0].0 != s[i].0);
        }
    }
}

} // verus!
