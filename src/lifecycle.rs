use vstd::prelude::*;

use crate::agent::{Age, Agent, AntRole, AntState};
use crate::colony::ColonyState;
use crate::config::{LifecycleConfig, SimConfig};
use crate::random::{random_index, random_u8};
use crate::world::{lemma_apply_listed, lemma_listed_index, AgentStore};

verus! {

/// Role a larva matures into for a roll out of 256: mostly workers.
pub open spec fn matured_role(roll: u8, cfg: LifecycleConfig) -> AntRole {
    if roll < cfg.worker_ratio_threshold {
        AntRole::Worker
    } else {
        AntRole::Soldier
    }
}

/// One tick of life. Adults past their lifespan are marked dead, others age.
/// Brood ages, then an egg that reached its time hatches into a larva, and a larva
/// that reached its time matures into a worker or soldier (by the roll), each
/// starting its new stage at age zero.
pub open spec fn life_step(a: Agent, cfg: LifecycleConfig, roll: u8) -> Agent {
    match a.age {
        None => a,
        Some(age) => {
            let older = Age {
                ticks: if age.ticks < u32::MAX {
                    (age.ticks + 1) as u32
                } else {
                    age.ticks
                },
                ..age
            };
            if a.role == AntRole::Queen || a.role == AntRole::Worker || a.role == AntRole::Soldier {
                if age.ticks >= age.max_ticks {
                    a.marked_dead()
                } else {
                    Agent { age: Some(older), ..a }
                }
            } else if a.role == AntRole::Egg && older.ticks >= older.max_ticks {
                Agent { role: AntRole::Larvae, age: Some(Age { ticks: 0, max_ticks: cfg.larvae_mature_time }), ..a }
            } else if a.role == AntRole::Larvae && older.ticks >= older.max_ticks {
                let role = matured_role(roll, cfg);
                Agent {
                    role,
                    state: AntState::Wandering,
                    age: Some(
                        Age {
                            ticks: 0,
                            max_ticks: if role == AntRole::Worker {
                                cfg.worker_lifespan
                            } else {
                                cfg.soldier_lifespan
                            },
                        },
                    ),
                    ..a
                }
            } else {
                Agent { age: Some(older), ..a }
            }
        },
    }
}

/// One tick of life for one agent, for a given roll.
pub fn life_update(a: Agent, cfg: &LifecycleConfig, roll: u8) -> (r: Agent)
    ensures
        r == life_step(a, *cfg, roll),
{
    match a.age {
        None => a,
        Some(age) => {
            let older = Age {
                ticks: if age.ticks < u32::MAX {
                    age.ticks + 1
                } else {
                    age.ticks
                },
                ..age
            };
            if a.role == AntRole::Queen || a.role == AntRole::Worker || a.role == AntRole::Soldier {
                if age.ticks >= age.max_ticks {
                    Agent { dead: true, ..a }
                } else {
                    Agent { age: Some(older), ..a }
                }
            } else if a.role == AntRole::Egg && older.ticks >= older.max_ticks {
                Agent { role: AntRole::Larvae, age: Some(Age { ticks: 0, max_ticks: cfg.larvae_mature_time }), ..a }
            } else if a.role == AntRole::Larvae && older.ticks >= older.max_ticks {
                let role = if roll < cfg.worker_ratio_threshold {
                    AntRole::Worker
                } else {
                    AntRole::Soldier
                };
                let lifespan = if role == AntRole::Worker {
                    cfg.worker_lifespan
                } else {
                    cfg.soldier_lifespan
                };
                Agent { role, state: AntState::Wandering, age: Some(Age { ticks: 0, max_ticks: lifespan }), ..a }
            } else {
                Agent { age: Some(older), ..a }
            }
        },
    }
}

/// An egg one tick short of its hatching age hatches on the next tick, into a larva
/// of age zero with the maturation time as its limit; an egg younger than that is
/// still an egg after the tick.
pub proof fn lemma_egg_hatches_next_tick(a: Agent, cfg: LifecycleConfig, roll: u8)
    requires
        a.role == AntRole::Egg,
        a.age matches Some(age) && age.max_ticks >= 1,
    ensures
        a.age.unwrap().ticks == a.age.unwrap().max_ticks - 1 ==> life_step(a, cfg, roll).role == AntRole::Larvae
            && life_step(a, cfg, roll).age == Some(Age { ticks: 0, max_ticks: cfg.larvae_mature_time }),
        a.age.unwrap().ticks + 1 < a.age.unwrap().max_ticks ==> life_step(a, cfg, roll).role == AntRole::Egg,
{
}

/// `after` is `before` one tick of life later, for some roll.
pub open spec fn lived(before: Agent, after: Agent, cfg: LifecycleConfig) -> bool {
    exists|roll: u8| after == #[trigger] life_step(before, cfg, roll)
}

/// Every agent lives one tick, each larva on its own roll.
pub fn age_agents(store: &mut AgentStore, config: &SimConfig)
    ensures
        final(store)@.dom() == old(store)@.dom(),
        forall|k: u64|
            old(store)@.contains_key(k) ==> exists|roll: u8| #[trigger] final(store)@[k] == life_step(
                old(store)@[k],
                config.lifecycle,
                roll,
            ),
{
    let ids = store.ids();
    let mut updates: Vec<(u64, Agent)> = Vec::new();
    let mut i: usize = 0;
    while i < ids.len()
        invariant
            store@ == old(store)@,
            0 <= i <= ids@.len(),
            ids@.no_duplicates(),
            forall|j: int| 0 <= j < ids@.len() ==> store@.contains_key(#[trigger] ids@[j]),
            updates@.len() == i,
            forall|j: int| 0 <= j < i ==> (#[trigger] updates@[j]).0 == ids@[j] && exists|roll: u8| updates@[j].1 == life_step(
                store@[ids@[j]],
                config.lifecycle,
                roll,
            ),
        decreases ids@.len() - i,
    {
        let id = ids[i];
        let a = store.get(id).unwrap();
        let roll = random_u8(0, 255);
        let na = life_update(a, &config.lifecycle, roll);
        let ghost before = updates@;
        updates.push((id, na));
        proof {
            assert forall|j: int| 0 <= j < i + 1 implies (#[trigger] updates@[j]).0 == ids@[j] && exists|r: u8| updates@[j].1
                == life_step(store@[ids@[j]], config.lifecycle, r) by {
                if j < i {
                    assert(updates@[j] == before[j]);
                } else {
                    assert(updates@[j].1 == life_step(store@[ids@[j]], config.lifecycle, roll));
                }
            }
        }
        i = i + 1;
    }
    store.apply(&updates);
    proof {
        let m = old(store)@;
        lemma_apply_listed(m, ids@, updates@);
        assert forall|k: u64| m.contains_key(k) implies exists|roll: u8| #[trigger] store@[k] == life_step(
            m[k],
            config.lifecycle,
            roll,
        ) by {
            let j = lemma_listed_index(ids@, k);
            assert(updates@[j].0 == ids@[j]);
        }
    }
}

/// Offsets around a queen where an egg may be laid.
pub open spec fn egg_offset(k: int) -> (int, int) {
    if k == 0 {
        (0, 1)
    } else if k == 1 {
        (1, 0)
    } else if k == 2 {
        (-1, 0)
    } else if k == 3 {
        (0, -1)
    } else if k == 4 {
        (1, 1)
    } else {
        (-1, 1)
    }
}

fn egg_offset_exec(k: usize) -> (r: (i32, i32))
    ensures
        (r.0 as int, r.1 as int) == egg_offset(k as int),
{
    match k {
        0 => (0, 1),
        1 => (1, 0),
        2 => (-1, 0),
        3 => (0, -1),
        4 => (1, 1),
        _ => (-1, 1),
    }
}

/// Total food stored by the colonies of `cols`.
pub open spec fn food_sum(cols: Seq<ColonyState>) -> int
    decreases cols.len(),
{
    if cols.len() == 0 {
        0
    } else {
        food_sum(cols.drop_last()) + cols.last().food_stored
    }
}

proof fn lemma_food_sum_update(s: Seq<ColonyState>, i: int, c: ColonyState)
    requires
        0 <= i < s.len(),
    ensures
        food_sum(s.update(i, c)) == food_sum(s) - s[i].food_stored + c.food_stored,
    decreases s.len(),
{
    let t = s.update(i, c);
    if i == s.len() - 1 {
        assert(t.drop_last() =~= s.drop_last());
    } else {
        lemma_food_sum_update(s.drop_last(), i, c);
        assert(t.drop_last() =~= s.drop_last().update(i, c));
    }
}

/// Every living queen of `m` stands away from the ends of the coordinate range.
pub open spec fn queens_inside(m: Map<u64, Agent>) -> bool {
    forall|k: u64|
        #[trigger] m.contains_key(k) && m[k].role == AntRole::Queen && !m[k].dead ==> i32::MIN < m[k].x < i32::MAX
            && i32::MIN < m[k].y < i32::MAX
}

/// `spot` is the position and colony of a living queen of `m`.
pub open spec fn queen_spot(m: Map<u64, Agent>, spot: (i32, i32, u8)) -> bool {
    exists|q: u64|
        #[trigger] m.contains_key(q) && m[q].role == AntRole::Queen && !m[q].dead && (m[q].x, m[q].y, m[q].colony_id) == spot
}

/// `egg` lies at one of the laying offsets around a living queen of its colony in `m`.
pub open spec fn laid_by_queen(m: Map<u64, Agent>, egg: Agent) -> bool {
    exists|q: u64, k: int|
        #![trigger m.contains_key(q), egg_offset(k)]
        m.contains_key(q) && m[q].role == AntRole::Queen && !m[q].dead && m[q].colony_id == egg.colony_id && 0 <= k < 6
            && egg.x == m[q].x + egg_offset(k).0 && egg.y == m[q].y + egg_offset(k).1
}

/// A newly laid egg of a colony at (x, y).
pub open spec fn is_new_egg(a: Agent, cfg: LifecycleConfig) -> bool {
    &&& a.role == AntRole::Egg
    &&& a.state == AntState::Idle
    &&& a.age == Some(Age { ticks: 0, max_ticks: cfg.egg_hatch_time })
    &&& !a.dead
}

/// Colonies keep their identity and home; only stored food changes.
pub open spec fn same_colonies(a: Seq<ColonyState>, b: Seq<ColonyState>) -> bool {
    &&& a.len() == b.len()
    &&& forall|c: int| 0 <= c < a.len() ==> (#[trigger] b[c]).id == a[c].id && b[c].home_x == a[c].home_x
        && b[c].home_y == a[c].home_y && b[c].queen_alive == a[c].queen_alive && b[c].food_fraction == a[c].food_fraction
}

/// Living queens of colony `c` among the agents of `s`.
pub open spec fn living_queens(s: Seq<Agent>, c: int) -> int
    decreases s.len(),
{
    if s.len() == 0 {
        0
    } else {
        living_queens(s.drop_last(), c) + if s.last().role == AntRole::Queen && !s.last().dead && s.last().colony_id == c {
            1int
        } else {
            0
        }
    }
}

/// A colony that started with `before` food and has `queens` living queens paid the
/// egg cost once per queen while it could: `paid` times, leaving `after`.
pub open spec fn paid_for_eggs(before: u32, after: u32, queens: int, cost: u32) -> bool {
    exists|paid: int|
        0 <= paid <= queens && after == before - cost * paid && (paid < queens ==> after < cost) && #[trigger] (
        cost * paid) >= 0
}

/// On laying ticks each queen whose colony can pay the egg cost pays it and lays
/// one egg next to herself. Existing agents are untouched.
pub fn queen_lay_eggs(store: &mut AgentStore, colonies: &mut Vec<ColonyState>, tick: u64, config: &SimConfig)
    ensures
        forall|k: u64| #[trigger] old(store)@.contains_key(k) ==> final(store)@.contains_key(k) && final(store)@[k] == old(store)@[k],
        forall|k: u64| #[trigger] final(store)@.contains_key(k) && !old(store)@.contains_key(k) ==> is_new_egg(final(store)@[k], config.lifecycle)
            && (final(store)@[k].colony_id as int) < old(colonies)@.len() && laid_by_queen(old(store)@, final(store)@[k]),
        same_colonies(old(colonies)@, final(colonies)@),
        forall|c: int| 0 <= c < old(colonies)@.len() ==> (#[trigger] final(colonies)@[c]).food_stored <= old(colonies)@[c].food_stored,
        !(config.lifecycle.queen_lay_interval > 0 && tick % config.lifecycle.queen_lay_interval as u64 == 0) ==> final(colonies)@
            == old(colonies)@ && final(store)@ == old(store)@,
        queens_inside(old(store)@) && 2 * old(store)@.len() < u32::MAX - 1 ==> (final(store)@.len() - old(store)@.len())
            * config.lifecycle.food_per_egg == food_sum(old(colonies)@) - food_sum(final(colonies)@),
        config.lifecycle.queen_lay_interval > 0 && tick % config.lifecycle.queen_lay_interval as u64 == 0 ==> exists|ids: Seq<u64>|
            ids.no_duplicates() && #[trigger] ids.to_set() == old(store)@.dom() && forall|c: int|
                0 <= c < old(colonies)@.len() ==> paid_for_eggs(
                    old(colonies)@[c].food_stored,
                    (#[trigger] final(colonies)@[c]).food_stored,
                    living_queens(ids.map_values(|k: u64| old(store)@[k]), c),
                    config.lifecycle.food_per_egg,
                ),
{
    let cfg = &config.lifecycle;
    if cfg.queen_lay_interval == 0 || tick % cfg.queen_lay_interval as u64 != 0 {
        return ;
    }
    let ids = store.ids();
    let ghost agents = ids@.map_values(|k: u64| store@[k]);
    let ghost cost = config.lifecycle.food_per_egg;
    let ghost mut paid: Seq<int> = Seq::new(colonies@.len(), |c: int| 0int);
    let mut eggs: Vec<(i32, i32, u8)> = Vec::new();
    let mut i: usize = 0;
    while i < ids.len()
        invariant
            store@ == old(store)@,
            0 <= i <= ids@.len(),
            agents == ids@.map_values(|k: u64| store@[k]),
            cost == config.lifecycle.food_per_egg,
            forall|j: int| 0 <= j < ids@.len() ==> store@.contains_key(#[trigger] ids@[j]),
            same_colonies(old(colonies)@, colonies@),
            forall|c: int| 0 <= c < old(colonies)@.len() ==> (#[trigger] colonies@[c]).food_stored <= old(colonies)@[c].food_stored,
            forall|e: int| 0 <= e < eggs@.len() ==> ((#[trigger] eggs@[e]).2 as int) < old(colonies)@.len() && queen_spot(
                old(store)@,
                eggs@[e],
            ),
            paid.len() == old(colonies)@.len(),
            eggs@.len() <= i,
            food_sum(old(colonies)@) - food_sum(colonies@) == cost * eggs@.len(),
            forall|c: int|
                0 <= c < old(colonies)@.len() ==> 0 <= #[trigger] paid[c] <= living_queens(agents.take(i as int), c)
                    && colonies@[c].food_stored == old(colonies)@[c].food_stored - cost * paid[c]
                    && (paid[c] < living_queens(agents.take(i as int), c) ==> colonies@[c].food_stored < cost),
        decreases ids@.len() - i,
    {
        let a = store.get(ids[i]).unwrap();
        let c = a.colony_id as usize;
        proof {
            assert(agents[i as int] == a);
            assert(agents.take(i as int + 1).drop_last() =~= agents.take(i as int));
        }
        let ghost paid_before = paid;
        let ghost cols_before = colonies@;
        if a.role == AntRole::Queen && !a.dead && c < colonies.len() && colonies[c].food_stored >= config.lifecycle.food_per_egg {
            let mut col = colonies[c];
            col.food_stored = col.food_stored - config.lifecycle.food_per_egg;
            proof {
                lemma_food_sum_update(colonies@, c as int, col);
                assert(cost * (eggs@.len() + 1) == cost * eggs@.len() + cost) by (nonlinear_arith);
            }
            colonies.set(c, col);
            let ghost eggs_before = eggs@;
            eggs.push((a.x, a.y, a.colony_id));
            proof {
                assert(store@.contains_key(ids@[i as int]));
                assert forall|e: int| 0 <= e < eggs@.len() implies ((#[trigger] eggs@[e]).2 as int) < old(colonies)@.len()
                    && queen_spot(old(store)@, eggs@[e]) by {
                    if e < eggs_before.len() {
                        assert(eggs@[e] == eggs_before[e]);
                    } else {
                        assert(old(store)@[ids@[i as int]] == a);
                    }
                }
                paid = paid.update(c as int, paid[c as int] + 1);
                assert(cost * (paid_before[c as int] + 1) == cost * paid_before[c as int] + cost) by (nonlinear_arith);
            }
        }
        proof {
            assert forall|d: int|
                0 <= d < old(colonies)@.len() implies 0 <= #[trigger] paid[d] <= living_queens(agents.take(i as int + 1), d)
                    && colonies@[d].food_stored == old(colonies)@[d].food_stored - cost * paid[d]
                    && (paid[d] < living_queens(agents.take(i as int + 1), d) ==> colonies@[d].food_stored < cost) by {
                assert(0 <= paid_before[d] <= living_queens(agents.take(i as int), d)
                    && cols_before[d].food_stored == old(colonies)@[d].food_stored - cost * paid_before[d]
                    && (paid_before[d] < living_queens(agents.take(i as int), d) ==> cols_before[d].food_stored < cost));
                assert(agents.take(i as int + 1).last() == a);
            }
        }
        i = i + 1;
    }
    proof {
        assert(agents.take(ids@.len() as int) =~= agents);
        assert forall|c: int| 0 <= c < old(colonies)@.len() implies paid_for_eggs(
            old(colonies)@[c].food_stored,
            (#[trigger] colonies@[c]).food_stored,
            living_queens(agents, c),
            config.lifecycle.food_per_egg,
        ) by {
            let p = paid[c];
            assert(0 <= p <= living_queens(agents, c));
            assert(cost * p >= 0) by (nonlinear_arith)
                requires
                    p >= 0,
            ;
        }
    }
    let ghost room = queens_inside(old(store)@) && 2 * old(store)@.len() < u32::MAX - 1;
    proof {
        assert(eggs@.len() <= ids@.len());
        if room {
            vstd::seq_lib::seq_to_set_is_finite(ids@);
            crate::world::lemma_ids_len(store@, ids@);
        }
    }
    let mut e: usize = 0;
    while e < eggs.len()
        invariant
            0 <= e <= eggs@.len(),
            room == (queens_inside(old(store)@) && 2 * old(store)@.len() < u32::MAX - 1),
            room ==> eggs@.len() <= old(store)@.len(),
            room ==> store@.len() == old(store)@.len() + e,
            cost == config.lifecycle.food_per_egg,
            food_sum(old(colonies)@) - food_sum(colonies@) == cost * eggs@.len(),
            forall|k: u64| #[trigger] old(store)@.contains_key(k) ==> store@.contains_key(k) && store@[k] == old(store)@[k],
            forall|k: u64| #[trigger] store@.contains_key(k) && !old(store)@.contains_key(k) ==> is_new_egg(store@[k], config.lifecycle)
                && (store@[k].colony_id as int) < old(colonies)@.len() && laid_by_queen(old(store)@, store@[k]),
            forall|e2: int| 0 <= e2 < eggs@.len() ==> ((#[trigger] eggs@[e2]).2 as int) < old(colonies)@.len() && queen_spot(
                old(store)@,
                eggs@[e2],
            ),
        decreases eggs@.len() - e,
    {
        let (x, y, colony) = eggs[e];
        let slot = random_index(6);
        let (ox, oy) = egg_offset_exec(slot);
        let ex: i64 = x as i64 + ox as i64;
        let ey: i64 = y as i64 + oy as i64;
        proof {
            if room {
                assert(queen_spot(old(store)@, eggs@[e as int]));
                let q = choose|q: u64|
                    #[trigger] old(store)@.contains_key(q) && old(store)@[q].role == AntRole::Queen && !old(store)@[q].dead
                        && (old(store)@[q].x, old(store)@[q].y, old(store)@[q].colony_id) == eggs@[e as int];
                assert(i32::MIN < x < i32::MAX && i32::MIN < y < i32::MAX);
            }
        }
        if ex >= i32::MIN as i64 && ex <= i32::MAX as i64 && ey >= i32::MIN as i64 && ey <= i32::MAX as i64 {
            let egg = Agent {
                x: ex as i32,
                y: ey as i32,
                colony_id: colony,
                role: AntRole::Egg,
                state: AntState::Idle,
                age: Some(Age { ticks: 0, max_ticks: config.lifecycle.egg_hatch_time }),
                fighter: None,
                carrying: None,
                drowning: None,
                dead: false,
            };
            let ghost before = store@;
            match store.spawn(egg) {
                Some(id) => {
                    proof {
                        assert forall|k: u64| #[trigger] old(store)@.contains_key(k) implies store@.contains_key(k) && store@[k] == old(store)@[k] by {
                            assert(before.contains_key(k));
                        }
                        assert((egg.colony_id as int) < old(colonies)@.len());
                        assert(queen_spot(old(store)@, eggs@[e as int]));
                        let q = choose|q: u64|
                            #[trigger] old(store)@.contains_key(q) && old(store)@[q].role == AntRole::Queen && !old(store)@[q].dead
                                && (old(store)@[q].x, old(store)@[q].y, old(store)@[q].colony_id) == eggs@[e as int];
                        assert(egg_offset(slot as int) == (ox as int, oy as int));
                        assert(laid_by_queen(old(store)@, egg));
                        assert forall|k: u64| #[trigger] store@.contains_key(k) && !old(store)@.contains_key(k) implies is_new_egg(store@[k], config.lifecycle)
                            && (store@[k].colony_id as int) < old(colonies)@.len() && laid_by_queen(old(store)@, store@[k]) by {
                            if k != id {
                                assert(before.contains_key(k));
                            }
                        }
                    }
                },
                None => {},
            }
        }
        e = e + 1;
    }
    proof {
        if room {
            let n = store@.len() - old(store)@.len();
            assert(n == eggs@.len());
            assert(n * cost == cost * eggs@.len()) by (nonlinear_arith)
                requires
                    n == eggs@.len(),
            ;
        }
    }
}

/// Food a colony member costs at each upkeep: larvae most, eggs nothing.
pub open spec fn upkeep_of(role: AntRole, cfg: LifecycleConfig) -> int {
    match role {
        AntRole::Larvae => cfg.larvae_food_cost as int,
        AntRole::Egg => 0,
        _ => cfg.ant_food_cost as int,
    }
}

/// Upkeep of the agents listed in `s` that belong to colony `c`.
pub open spec fn colony_upkeep(s: Seq<Agent>, c: int, cfg: LifecycleConfig) -> int
    decreases s.len(),
{
    if s.len() == 0 {
        0
    } else {
        colony_upkeep(s.drop_last(), c, cfg) + if s.last().colony_id == c {
            upkeep_of(s.last().role, cfg)
        } else {
            0
        }
    }
}

/// The agents of a store in the order of a listing of its keys.
pub open spec fn listed_agents(m: Map<u64, Agent>, ids: Seq<u64>) -> Seq<Agent> {
    ids.map_values(|k: u64| m[k])
}

/// Upkeep: each colony pays for its members, never going below zero.
pub fn consume_food(store: &AgentStore, colonies: &mut Vec<ColonyState>, config: &SimConfig)
    ensures
        same_colonies(old(colonies)@, final(colonies)@),
        exists|ids: Seq<u64>|
            ids.no_duplicates() && ids.to_set() == store@.dom() && forall|c: int|
                0 <= c < old(colonies)@.len() ==> (#[trigger] final(colonies)@[c]).food_stored == if old(colonies)@[c].food_stored
                    >= colony_upkeep(listed_agents(store@, ids), c, config.lifecycle) {
                    old(colonies)@[c].food_stored - colony_upkeep(listed_agents(store@, ids), c, config.lifecycle)
                } else {
                    0
                },
{
    let ids = store.ids();
    let n = colonies.len();
    let mut needed: Vec<u128> = Vec::new();
    let mut c: usize = 0;
    while c < n
        invariant
            n == colonies@.len(),
            0 <= c <= n,
            needed@.len() == c,
            forall|d: int| 0 <= d < c ==> needed@[d] == 0,
        decreases n - c,
    {
        needed.push(0);
        c = c + 1;
    }
    let ghost agents = listed_agents(store@, ids@);
    let mut i: usize = 0;
    while i < ids.len()
        invariant
            0 <= i <= ids@.len(),
            agents == listed_agents(store@, ids@),
            forall|j: int| 0 <= j < ids@.len() ==> store@.contains_key(#[trigger] ids@[j]),
            needed@.len() == n,
            forall|d: int| 0 <= d < n ==> #[trigger] needed@[d] == colony_upkeep(agents.take(i as int), d, config.lifecycle),
            forall|d: int| 0 <= d < n ==> #[trigger] needed@[d] <= i * 0xFFFF_FFFF,
        decreases ids@.len() - i,
    {
        let a = store.get(ids[i]).unwrap();
        proof {
            assert(agents[i as int] == a);
            assert(agents.take(i as int + 1).drop_last() =~= agents.take(i as int));
        }
        let cost: u32 = match a.role {
            AntRole::Larvae => config.lifecycle.larvae_food_cost,
            AntRole::Egg => 0,
            _ => config.lifecycle.ant_food_cost,
        };
        let d = a.colony_id as usize;
        if d < n {
            proof {
                assert(needed@[d as int] <= i * 0xFFFF_FFFF);
                assert(i * 0xFFFF_FFFF + 0xFFFF_FFFF <= 0xFFFF_FFFF_FFFF_FFFFu128 * 0xFFFF_FFFF + 0xFFFF_FFFF) by (nonlinear_arith)
                    requires
                        i <= 0xFFFF_FFFF_FFFF_FFFFu128,
                ;
            }
            let v = needed[d] + cost as u128;
            needed.set(d, v);
        }
        i = i + 1;
    }
    proof {
        assert(agents.take(ids@.len() as int) =~= agents);
    }
    let mut c: usize = 0;
    while c < n
        invariant
            0 <= c <= n,
            n == colonies@.len(),
            needed@.len() == n,
            same_colonies(old(colonies)@, colonies@),
            forall|d: int| 0 <= d < n ==> #[trigger] needed@[d] == colony_upkeep(agents, d, config.lifecycle),
            forall|d: int| 0 <= d < c ==> (#[trigger] colonies@[d]).food_stored == if old(colonies)@[d].food_stored >= needed@[d] {
                old(colonies)@[d].food_stored - needed@[d]
            } else {
                0
            },
            forall|d: int| c <= d < n ==> (#[trigger] colonies@[d]).food_stored == old(colonies)@[d].food_stored,
        decreases n - c,
    {
        let mut col = colonies[c];
        col.food_stored = if col.food_stored as u128 >= needed[c] {
            (col.food_stored as u128 - needed[c]) as u32
        } else {
            0
        };
        colonies.set(c, col);
        c = c + 1;
    }
}

/// Gives each queen without an age one, starting at zero with the queen lifespan.
pub fn ensure_queen_ages(store: &mut AgentStore, config: &SimConfig)
    ensures
        final(store)@.dom() == old(store)@.dom(),
        forall|k: u64|
            old(store)@.contains_key(k) ==> #[trigger] final(store)@[k] == if old(store)@[k].role == AntRole::Queen
                && old(store)@[k].age is None {
                Agent { age: Some(Age { ticks: 0, max_ticks: config.lifecycle.queen_lifespan }), ..old(store)@[k] }
            } else {
                old(store)@[k]
            },
{
    let ids = store.ids();
    let mut updates: Vec<(u64, Agent)> = Vec::new();
    let mut i: usize = 0;
    while i < ids.len()
        invariant
            store@ == old(store)@,
            0 <= i <= ids@.len(),
            ids@.no_duplicates(),
            forall|j: int| 0 <= j < ids@.len() ==> store@.contains_key(#[trigger] ids@[j]),
            updates@.len() == i,
            forall|j: int| 0 <= j < i ==> (#[trigger] updates@[j]) == (ids@[j], if store@[ids@[j]].role == AntRole::Queen
                && store@[ids@[j]].age is None {
                Agent { age: Some(Age { ticks: 0, max_ticks: config.lifecycle.queen_lifespan }), ..store@[ids@[j]] }
            } else {
                store@[ids@[j]]
            }),
        decreases ids@.len() - i,
    {
        let id = ids[i];
        let a = store.get(id).unwrap();
        let na = if a.role == AntRole::Queen && a.age.is_none() {
            Agent { age: Some(Age { ticks: 0, max_ticks: config.lifecycle.queen_lifespan }), ..a }
        } else {
            a
        };
        updates.push((id, na));
        i = i + 1;
    }
    store.apply(&updates);
    proof {
        let m = old(store)@;
        lemma_apply_listed(m, ids@, updates@);
        assert forall|k: u64| m.contains_key(k) implies #[trigger] store@[k] == if m[k].role == AntRole::Queen && m[k].age is None {
            Agent { age: Some(Age { ticks: 0, max_ticks: config.lifecycle.queen_lifespan }), ..m[k] }
        } else {
            m[k]
        } by {
            let j = lemma_listed_index(ids@, k);
            assert(updates@[j].0 == ids@[j]);
        }
    }
}

/// On a laying tick, each colony of `before` paid for its queens' eggs as
/// `paid_for_eggs` says, ending as in `after`; on other ticks its food is unchanged.
pub open spec fn eggs_paid(before: Seq<ColonyState>, after: Seq<ColonyState>, agents: Map<u64, Agent>, cfg: LifecycleConfig, laying: bool) -> bool {
    if laying {
        exists|ids: Seq<u64>|
            ids.no_duplicates() && #[trigger] ids.to_set() == agents.dom() && forall|c: int|
                0 <= c < before.len() ==> paid_for_eggs(
                    before[c].food_stored,
                    (#[trigger] after[c]).food_stored,
                    living_queens(ids.map_values(|k: u64| agents[k]), c),
                    cfg.food_per_egg,
                )
    } else {
        forall|c: int| 0 <= c < before.len() ==> (#[trigger] after[c]).food_stored == before[c].food_stored
    }
}

/// On an upkeep tick, each colony of `before` paid for its members of `agents`,
/// never going below zero, ending as in `after`; on other ticks its food is unchanged.
pub open spec fn upkeep_paid(before: Seq<ColonyState>, after: Seq<ColonyState>, agents: Map<u64, Agent>, cfg: LifecycleConfig, upkeep: bool) -> bool {
    if upkeep {
        exists|ids: Seq<u64>|
            ids.no_duplicates() && ids.to_set() == agents.dom() && forall|c: int|
                0 <= c < before.len() ==> (#[trigger] after[c]).food_stored == if before[c].food_stored >= colony_upkeep(
                    listed_agents(agents, ids),
                    c,
                    cfg,
                ) {
                    before[c].food_stored - colony_upkeep(listed_agents(agents, ids), c, cfg)
                } else {
                    0
                }
    } else {
        forall|c: int| 0 <= c < before.len() ==> (#[trigger] after[c]).food_stored == before[c].food_stored
    }
}

/// The life-cycle phase of a tick: egg laying, one tick of life for every agent,
/// then upkeep on upkeep ticks.
pub fn lifecycle_system(store: &mut AgentStore, colonies: &mut Vec<ColonyState>, tick: u64, config: &SimConfig)
    ensures
        same_colonies(old(colonies)@, final(colonies)@),
        old(store)@.dom().subset_of(final(store)@.dom()),
        forall|k: u64| old(store)@.contains_key(k) ==> lived(old(store)@[k], #[trigger] final(store)@[k], config.lifecycle),
        forall|k: u64|
            #[trigger] final(store)@.contains_key(k) && !old(store)@.contains_key(k) ==> (final(store)@[k].colony_id as int)
                < old(colonies)@.len(),
        exists|laid: Seq<ColonyState>|
            #[trigger] same_colonies(old(colonies)@, laid) && eggs_paid(
                old(colonies)@,
                laid,
                old(store)@,
                config.lifecycle,
                config.lifecycle.queen_lay_interval > 0 && tick % config.lifecycle.queen_lay_interval as u64 == 0,
            ) && upkeep_paid(
                laid,
                final(colonies)@,
                final(store)@,
                config.lifecycle,
                config.lifecycle.food_consume_interval > 0 && tick % config.lifecycle.food_consume_interval as u64 == 0,
            ),
{
    queen_lay_eggs(store, colonies, tick, config);
    let ghost laid = store@;
    let ghost laid_cols = colonies@;
    proof {
        assert(eggs_paid(
            old(colonies)@,
            laid_cols,
            old(store)@,
            config.lifecycle,
            config.lifecycle.queen_lay_interval > 0 && tick % config.lifecycle.queen_lay_interval as u64 == 0,
        ));
    }
    age_agents(store, config);
    let ghost aged = store@;
    if config.lifecycle.food_consume_interval > 0 && tick % config.lifecycle.food_consume_interval as u64 == 0 {
        consume_food(&*store, colonies, config);
    }
    proof {
        assert(store@ == aged);
        assert(upkeep_paid(
            laid_cols,
            colonies@,
            store@,
            config.lifecycle,
            config.lifecycle.food_consume_interval > 0 && tick % config.lifecycle.food_consume_interval as u64 == 0,
        ));
        assert forall|k: u64| old(store)@.contains_key(k) implies lived(old(store)@[k], #[trigger] store@[k], config.lifecycle) by {
            assert(laid.contains_key(k) && laid[k] == old(store)@[k]);
            assert(exists|roll: u8| store@[k] == life_step(laid[k], config.lifecycle, roll));
            let r0 = choose|roll: u8| store@[k] == life_step(laid[k], config.lifecycle, roll);
            assert(store@[k] == life_step(old(store)@[k], config.lifecycle, r0));
        }
        assert forall|k: u64| #[trigger] store@.contains_key(k) && !old(store)@.contains_key(k) implies (store@[k].colony_id as int)
            < old(colonies)@.len() by {
            assert(laid.contains_key(k));
            let r0 = choose|roll: u8| store@[k] == life_step(laid[k], config.lifecycle, roll);
        }
    }
}

} // verus!
