use vstd::prelude::*;

use crate::agent::{Agent, AntRole, AntState};
use crate::colony::ColonyState;
use crate::config::{FoodConfig, SimConfig};
use crate::pheromone::{follow_pheromone, PheromoneGrid, PheromoneType};
use crate::random::random_i32;
use crate::terrain::Terrain;
use crate::water::surface_of;
use crate::world::{lemma_apply_listed, lemma_listed_index, AgentStore};

verus! {

/// A resource node on the surface.
#[derive(Clone, Copy, Debug, PartialEq, Eq, Structural)]
pub struct FoodSource {
    pub x: i32,
    pub y: i32,
    pub amount: u16,
    pub regrow_rate: u8,
}

/// Manhattan distance between two points.
pub open spec fn manhattan(ax: int, ay: int, bx: int, by: int) -> int {
    (if ax >= bx {
        ax - bx
    } else {
        bx - ax
    }) + (if ay >= by {
        ay - by
    } else {
        by - ay
    })
}

pub fn manhattan_distance(ax: i32, ay: i32, bx: i32, by: i32) -> (r: i64)
    ensures
        r == manhattan(ax as int, ay as int, bx as int, by as int),
{
    let dx: i64 = if ax >= bx {
        ax as i64 - bx as i64
    } else {
        bx as i64 - ax as i64
    };
    let dy: i64 = if ay >= by {
        ay as i64 - by as i64
    } else {
        by as i64 - ay as i64
    };
    dx + dy
}

/// Whether an agent is within the deposit radius of its colony's home.
pub open spec fn at_home(a: Agent, colonies: Seq<ColonyState>, cfg: FoodConfig) -> bool {
    &&& (a.colony_id as int) < colonies.len()
    &&& manhattan(
        a.x as int,
        a.y as int,
        colonies[a.colony_id as int].home_x as int,
        colonies[a.colony_id as int].home_y as int,
    ) <= cfg.deposit_distance
}

fn is_at_home(a: &Agent, colonies: &Vec<ColonyState>, cfg: &FoodConfig) -> (r: bool)
    ensures
        r == at_home(*a, colonies@, *cfg),
{
    let c = a.colony_id as usize;
    if c >= colonies.len() {
        return false;
    }
    manhattan_distance(a.x, a.y, colonies[c].home_x, colonies[c].home_y) <= cfg.deposit_distance as i64
}

/// A carrying agent at home lets go of its load and wanders again.
pub open spec fn deposit_step(a: Agent, colonies: Seq<ColonyState>, cfg: FoodConfig) -> Agent {
    if a.state == AntState::Carrying && a.carrying is Some && at_home(a, colonies, cfg) {
        Agent { state: AntState::Wandering, carrying: None, ..a }
    } else {
        a
    }
}

/// Returns carrying agents that reached home to wandering, without load.
pub fn check_deposit(store: &mut AgentStore, colonies: &Vec<ColonyState>, config: &SimConfig)
    ensures
        final(store)@.dom() == old(store)@.dom(),
        forall|k: u64|
            old(store)@.contains_key(k) ==> #[trigger] final(store)@[k] == deposit_step(
                old(store)@[k],
                colonies@,
                config.food,
            ),
{
    let ids = store.ids();
    let mut updates: Vec<(u64, Agent)> = Vec::new();
    let mut i: usize = 0;
    while i < ids.len()
        invariant
            store@ == old(store)@,
            0 <= i <= ids@.len(),
            ids@.no_duplicates(),
            forall|j: int| 0 <= j < ids@.len() ==> store@.contains_key(#[trigger] ids@[j]),
            updates@.len() == i,
            forall|j: int| 0 <= j < i ==> (#[trigger] updates@[j]) == (ids@[j], deposit_step(
                store@[ids@[j]],
                colonies@,
                config.food,
            )),
        decreases ids@.len() - i,
    {
        let id = ids[i];
        let a = store.get(id).unwrap();
        let na = if a.state == AntState::Carrying && a.carrying.is_some() && is_at_home(&a, colonies, &config.food) {
            Agent { state: AntState::Wandering, carrying: None, ..a }
        } else {
            a
        };
        updates.push((id, na));
        i = i + 1;
    }
    store.apply(&updates);
    proof {
        let m = old(store)@;
        lemma_apply_listed(m, ids@, updates@);
        assert forall|k: u64| m.contains_key(k) implies #[trigger] store@[k] == deposit_step(
            m[k],
            colonies@,
            config.food,
        ) by {
            let j = lemma_listed_index(ids@, k);
            assert(updates@[j].0 == ids@[j]);
        }
    }
}

/// A carrying worker within the deposit radius of its home delivers its load.
pub open spec fn delivers(a: Agent, colonies: Seq<ColonyState>, cfg: FoodConfig) -> bool {
    a.role == AntRole::Worker && a.state == AntState::Carrying && at_home(a, colonies, cfg)
}

/// Food that the agents of `s` deliver to colony `c`: one deposit unit each.
pub open spec fn delivered(s: Seq<Agent>, c: int, colonies: Seq<ColonyState>, cfg: FoodConfig) -> int
    decreases s.len(),
{
    if s.len() == 0 {
        0
    } else {
        delivered(s.drop_last(), c, colonies, cfg) + if delivers(s.last(), colonies, cfg) && s.last().colony_id == c {
            cfg.food_per_deposit as int
        } else {
            0
        }
    }
}

/// Deposit units listed for colony `c`.
pub open spec fn listed_units(ds: Seq<u8>, c: int, per: u8) -> int
    decreases ds.len(),
{
    if ds.len() == 0 {
        0
    } else {
        listed_units(ds.drop_last(), c, per) + if ds.last() == c {
            per as int
        } else {
            0
        }
    }
}

/// `v + add`, saturating at `u32::MAX`.
pub open spec fn sat_add_u32(v: u32, add: int) -> u32 {
    if v + add > u32::MAX {
        u32::MAX
    } else {
        (v + add) as u32
    }
}

/// A node with food at (x, y) among the first `n` nodes.
pub open spec fn food_at(foods: Seq<FoodSource>, x: int, y: int) -> bool {
    exists|f: int| 0 <= f < foods.len() && (#[trigger] foods[f]).x == x && foods[f].y == y && foods[f].amount > 0
}

/// Node `f` is the first node at (x, y) that holds food.
pub open spec fn first_food_is(foods: Seq<FoodSource>, x: int, y: int, f: int) -> bool {
    &&& 0 <= f < foods.len()
    &&& foods[f].x == x && foods[f].y == y && foods[f].amount > 0
    &&& forall|g: int| 0 <= g < f ==> !((#[trigger] foods[g]).x == x && foods[g].y == y && foods[g].amount > 0)
}

/// Agent `k` is a wandering worker and no other wandering worker shares its tile.
pub open spec fn lone_wanderer(m: Map<u64, Agent>, k: u64) -> bool {
    &&& m.contains_key(k)
    &&& m[k].role == AntRole::Worker && m[k].state == AntState::Wandering
    &&& forall|k2: u64|
        #[trigger] m.contains_key(k2) && k2 != k && m[k2].role == AntRole::Worker && m[k2].state == AntState::Wandering
            ==> !(m[k2].x == m[k].x && m[k2].y == m[k].y)
}

/// Food one pickup takes from a node holding `amount`: the pickup unit, or what is left.
pub open spec fn pickup_amount(amount: u16, per: u8) -> u16 {
    if amount < per {
        amount
    } else {
        per as u16
    }
}

/// No picker among the first `p` stands on the tile of `node`.
pub open spec fn untouched_by(pickers: Seq<u64>, p: int, m: Map<u64, Agent>, node: FoodSource) -> bool {
    forall|q: int| 0 <= q < p ==> !(m[#[trigger] pickers[q]].x == node.x && m[pickers[q]].y == node.y)
}

/// Nodes on the tile of a lone wanderer not yet served are as they were.
proof fn lemma_lone_untouched(m: Map<u64, Agent>, old_foods: Seq<FoodSource>, foods: Seq<FoodSource>, pickers: Seq<u64>, p: int, id: u64, g: int)
    requires
        0 <= p < pickers.len(),
        pickers[p] == id,
        pickers.no_duplicates(),
        lone_wanderer(m, id),
        forall|q: int| 0 <= q < pickers.len() ==> m.contains_key(#[trigger] pickers[q]) && m[pickers[q]].role == AntRole::Worker
            && m[pickers[q]].state == AntState::Wandering,
        foods.len() == old_foods.len(),
        0 <= g < old_foods.len(),
        old_foods[g].x == m[id].x && old_foods[g].y == m[id].y,
        forall|f: int| 0 <= f < old_foods.len() && untouched_by(pickers, p, m, old_foods[f]) ==> #[trigger] foods[f] == old_foods[f],
    ensures
        foods[g] == old_foods[g],
{
    assert forall|q: int| 0 <= q < p implies !(m[#[trigger] pickers[q]].x == old_foods[g].x && m[pickers[q]].y == old_foods[g].y) by {
        assert(pickers[q] != id);
    }
}

/// A lone wanderer's first node with food is the same before and after earlier pickups.
proof fn lemma_lone_first(m: Map<u64, Agent>, old_foods: Seq<FoodSource>, foods: Seq<FoodSource>, pickers: Seq<u64>, p: int, id: u64, f: int, f2: int)
    requires
        0 <= p < pickers.len(),
        pickers[p] == id,
        pickers.no_duplicates(),
        lone_wanderer(m, id),
        forall|q: int| 0 <= q < pickers.len() ==> m.contains_key(#[trigger] pickers[q]) && m[pickers[q]].role == AntRole::Worker
            && m[pickers[q]].state == AntState::Wandering,
        foods.len() == old_foods.len(),
        forall|f3: int| 0 <= f3 < old_foods.len() && untouched_by(pickers, p, m, old_foods[f3]) ==> #[trigger] foods[f3] == old_foods[f3],
        forall|f3: int| 0 <= f3 < old_foods.len() ==> (#[trigger] foods[f3]).x == old_foods[f3].x && foods[f3].y == old_foods[f3].y,
        first_food_is(foods, m[id].x as int, m[id].y as int, f),
        first_food_is(old_foods, m[id].x as int, m[id].y as int, f2),
    ensures
        f == f2,
        foods[f] == old_foods[f],
{
    lemma_lone_untouched(m, old_foods, foods, pickers, p, id, f);
    lemma_lone_untouched(m, old_foods, foods, pickers, p, id, f2);
    if f < f2 {
        assert(old_foods[f] == foods[f]);
    } else if f2 < f {
        assert(foods[f2] == old_foods[f2]);
    }
}

/// `a` after picking up `taken` units of food.
pub open spec fn picked_up(a: Agent, taken: u8) -> Agent {
    Agent { state: AntState::Carrying, carrying: Some(taken), ..a }
}

/// First node at (x, y) that still holds food.
fn food_node_at(foods: &Vec<FoodSource>, x: i32, y: i32) -> (r: Option<usize>)
    ensures
        match r {
            Some(f) => f < foods@.len() && first_food_is(foods@, x as int, y as int, f as int),
            None => !food_at(foods@, x as int, y as int),
        },
{
    let mut f: usize = 0;
    while f < foods.len()
        invariant
            0 <= f <= foods@.len(),
            forall|g: int| 0 <= g < f ==> !((#[trigger] foods@[g]).x == x && foods@[g].y == y && foods@[g].amount > 0),
        decreases foods@.len() - f,
    {
        if foods[f].x == x && foods[f].y == y && foods[f].amount > 0 {
            return Some(f);
        }
        f = f + 1;
    }
    None
}

/// Foraging for one tick. Wandering workers standing on a node that holds food
/// take the pickup unit from it (what is left, if less) and carry it; carrying
/// workers within the deposit radius of home add the deposit unit to their
/// colony's store. Nodes only lose food, colonies only gain it.
pub fn foraging_system(
    store: &mut AgentStore,
    colonies: &mut Vec<ColonyState>,
    foods: &mut Vec<FoodSource>,
    config: &SimConfig,
)
    ensures
        final(store)@.dom() == old(store)@.dom(),
        forall|k: u64|
            old(store)@.contains_key(k) ==> #[trigger] final(store)@[k] == old(store)@[k] || (
            old(store)@[k].role == AntRole::Worker && old(store)@[k].state == AntState::Wandering
                && exists|t: u8| 0 < t <= config.food.food_per_pickup && final(store)@[k] == #[trigger] picked_up(old(store)@[k], t)),
        config.food.food_per_pickup > 0 ==> forall|k: u64|
            old(store)@.contains_key(k) && old(store)@[k].role == AntRole::Worker && old(store)@[k].state == AntState::Wandering
                && food_at(final(foods)@, old(store)@[k].x as int, old(store)@[k].y as int)
                ==> (#[trigger] final(store)@[k]).state == AntState::Carrying,
        config.food.food_per_pickup > 0 ==> forall|k: u64, f: int|
            lone_wanderer(old(store)@, k) && #[trigger] first_food_is(old(foods)@, old(store)@[k].x as int, old(store)@[k].y as int, f)
                ==> final(store)@[k] == picked_up(old(store)@[k], pickup_amount(old(foods)@[f].amount, config.food.food_per_pickup) as u8)
                && final(foods)@[f].amount == old(foods)@[f].amount - pickup_amount(old(foods)@[f].amount, config.food.food_per_pickup),
        final(foods)@.len() == old(foods)@.len(),
        forall|f: int| 0 <= f < old(foods)@.len() ==> (#[trigger] final(foods)@[f]).x == old(foods)@[f].x
            && final(foods)@[f].y == old(foods)@[f].y && final(foods)@[f].amount <= old(foods)@[f].amount
            && final(foods)@[f].regrow_rate == old(foods)@[f].regrow_rate,
        final(colonies)@.len() == old(colonies)@.len(),
        forall|c: int| 0 <= c < old(colonies)@.len() ==> (#[trigger] final(colonies)@[c]).food_stored >= old(colonies)@[c].food_stored
            && final(colonies)@[c].home_x == old(colonies)@[c].home_x && final(colonies)@[c].home_y == old(colonies)@[c].home_y
            && final(colonies)@[c].id == old(colonies)@[c].id
            && final(colonies)@[c].food_fraction == old(colonies)@[c].food_fraction,
        exists|ids: Seq<u64>|
            ids.no_duplicates() && #[trigger] ids.to_set() == old(store)@.dom() && forall|c: int|
                0 <= c < old(colonies)@.len() ==> (#[trigger] final(colonies)@[c]).food_stored == sat_add_u32(
                    old(colonies)@[c].food_stored,
                    delivered(ids.map_values(|k: u64| old(store)@[k]), c, old(colonies)@, config.food),
                ),
{
    let ids = store.ids();
    let mut pickers: Vec<u64> = Vec::new();
    let mut depositors: Vec<u8> = Vec::new();
    let ghost agents = ids@.map_values(|k: u64| store@[k]);
    let mut i: usize = 0;
    while i < ids.len()
        invariant
            store@ == old(store)@,
            colonies@ == old(colonies)@,
            agents == ids@.map_values(|k: u64| store@[k]),
            forall|c: int| #[trigger] listed_units(depositors@, c, config.food.food_per_deposit) == delivered(
                agents.take(i as int),
                c,
                colonies@,
                config.food,
            ),
            0 <= i <= ids@.len(),
            ids@.no_duplicates(),
            forall|j: int| 0 <= j < ids@.len() ==> store@.contains_key(#[trigger] ids@[j]),
            pickers@.no_duplicates(),
            forall|p: int| 0 <= p < pickers@.len() ==> exists|j: int| 0 <= j < i && ids@[j] == #[trigger] pickers@[p],
            forall|p: int| 0 <= p < pickers@.len() ==> store@.contains_key(#[trigger] pickers@[p])
                && store@[pickers@[p]].role == AntRole::Worker && store@[pickers@[p]].state == AntState::Wandering,
            forall|j: int| 0 <= j < i && store@[ids@[j]].role == AntRole::Worker
                && store@[ids@[j]].state == AntState::Wandering ==> pickers@.contains(#[trigger] ids@[j]),
        decreases ids@.len() - i,
    {
        let id = ids[i];
        let a = store.get(id).unwrap();
        let ghost ds_before = depositors@;
        proof {
            assert(agents[i as int] == a);
            assert(agents.take(i as int + 1).drop_last() =~= agents.take(i as int));
        }
        if a.role == AntRole::Worker {
            if a.state == AntState::Wandering {
                let ghost before = pickers@;
                pickers.push(id);
                proof {
                    assert forall|p: int, q: int| 0 <= p < q < pickers@.len() implies pickers@[p] != pickers@[q] by {
                        if q == pickers@.len() - 1 {
                            assert(pickers@[p] == before[p]);
                            let j = choose|j: int| 0 <= j < i && ids@[j] == before[p];
                        } else {
                            assert(pickers@[p] == before[p] && pickers@[q] == before[q]);
                        }
                    }
                    assert forall|p: int| 0 <= p < pickers@.len() implies exists|j: int| 0 <= j < i + 1 && ids@[j] == #[trigger] pickers@[p] by {
                        if p < before.len() {
                            assert(pickers@[p] == before[p]);
                            let j = choose|j: int| 0 <= j < i && ids@[j] == before[p];
                            assert(ids@[j] == pickers@[p]);
                        } else {
                            assert(ids@[i as int] == pickers@[p]);
                        }
                    }
                    assert forall|j: int| 0 <= j < i + 1 && store@[ids@[j]].role == AntRole::Worker
                        && store@[ids@[j]].state == AntState::Wandering implies pickers@.contains(#[trigger] ids@[j]) by {
                        if j < i {
                            let p = choose|p: int| 0 <= p < before.len() && before[p] == ids@[j];
                            assert(pickers@[p] == before[p]);
                        } else {
                            assert(pickers@[pickers@.len() - 1] == ids@[j]);
                        }
                    }
                }
            } else if a.state == AntState::Carrying && is_at_home(&a, colonies, &config.food) {
                depositors.push(a.colony_id);
                proof {
                    assert(depositors@.drop_last() =~= ds_before);
                }
            }
        }
        proof {
            let pushed = depositors@.len() > ds_before.len();
            assert(pushed == delivers(a, colonies@, config.food));
            assert forall|c: int| #[trigger] listed_units(depositors@, c, config.food.food_per_deposit) == delivered(
                agents.take(i as int + 1),
                c,
                colonies@,
                config.food,
            ) by {
                assert(agents.take(i as int + 1).last() == a);
                assert(agents.take(i as int + 1).drop_last() =~= agents.take(i as int));
                assert(listed_units(ds_before, c, config.food.food_per_deposit) == delivered(
                    agents.take(i as int),
                    c,
                    colonies@,
                    config.food,
                ));
                if pushed {
                    assert(depositors@.drop_last() =~= ds_before);
                    assert(depositors@.last() == a.colony_id);
                } else {
                    assert(depositors@ == ds_before);
                }
            }
        }
        i = i + 1;
    }
    let mut p: usize = 0;
    while p < pickers.len()
        invariant
            0 <= p <= pickers@.len(),
            pickers@.no_duplicates(),
            forall|q: int| 0 <= q < pickers@.len() ==> old(store)@.contains_key(#[trigger] pickers@[q])
                && old(store)@[pickers@[q]].role == AntRole::Worker && old(store)@[pickers@[q]].state == AntState::Wandering,
            store@.dom() == old(store)@.dom(),
            forall|k: u64| old(store)@.contains_key(k) ==> #[trigger] store@[k] == old(store)@[k] || (
                old(store)@[k].role == AntRole::Worker && old(store)@[k].state == AntState::Wandering
                && exists|t: u8| 0 < t <= config.food.food_per_pickup && store@[k] == #[trigger] picked_up(old(store)@[k], t)),
            forall|q: int| p <= q < pickers@.len() ==> store@[#[trigger] pickers@[q]] == old(store)@[pickers@[q]],
            config.food.food_per_pickup > 0 ==> forall|q: int| 0 <= q < p && food_at(foods@, old(store)@[pickers@[q]].x as int, old(store)@[pickers@[q]].y as int)
                ==> (#[trigger] store@[pickers@[q]]).state == AntState::Carrying,
            foods@.len() == old(foods)@.len(),
            forall|f: int| 0 <= f < old(foods)@.len() ==> (#[trigger] foods@[f]).x == old(foods)@[f].x
                && foods@[f].y == old(foods)@[f].y && foods@[f].amount <= old(foods)@[f].amount
                && foods@[f].regrow_rate == old(foods)@[f].regrow_rate,
            forall|f: int|
                0 <= f < old(foods)@.len() && untouched_by(pickers@, p as int, old(store)@, old(foods)@[f]) ==> #[trigger] foods@[f]
                    == old(foods)@[f],
            config.food.food_per_pickup > 0 ==> forall|q: int, f: int|
                0 <= q < p && lone_wanderer(old(store)@, pickers@[q]) && #[trigger] first_food_is(
                    old(foods)@,
                    old(store)@[pickers@[q]].x as int,
                    old(store)@[pickers@[q]].y as int,
                    f,
                ) ==> store@[pickers@[q]] == picked_up(
                    old(store)@[pickers@[q]],
                    pickup_amount(old(foods)@[f].amount, config.food.food_per_pickup) as u8,
                ) && foods@[f].amount == old(foods)@[f].amount - pickup_amount(old(foods)@[f].amount, config.food.food_per_pickup),
        decreases pickers@.len() - p,
    {
        let id = pickers[p];
        let a = store.get(id).unwrap();
        let ghost foods_before = foods@;
        match food_node_at(foods, a.x, a.y) {
            Some(f) if config.food.food_per_pickup > 0 => {
                let node = foods[f];
                let per = config.food.food_per_pickup as u16;
                let taken: u16 = if node.amount < per {
                    node.amount
                } else {
                    per
                };
                foods.set(f, FoodSource { amount: node.amount - taken, ..node });
                let na = Agent { state: AntState::Carrying, carrying: Some(taken as u8), ..a };
                let ghost before = store@;
                store.set(id, na);
                proof {
                    assert(na == picked_up(a, taken as u8));
                    assert forall|k: u64| old(store)@.contains_key(k) implies #[trigger] store@[k] == old(store)@[k] || (
                        old(store)@[k].role == AntRole::Worker && old(store)@[k].state == AntState::Wandering
                        && exists|t: u8| 0 < t <= config.food.food_per_pickup && store@[k] == #[trigger] picked_up(old(store)@[k], t)) by {
                        if k == id {
                            assert(store@[k] == picked_up(old(store)@[k], taken as u8));
                        } else {
                            assert(store@[k] == before[k]);
                        }
                    }
                    assert forall|q: int| p < q < pickers@.len() implies store@[#[trigger] pickers@[q]] == old(store)@[pickers@[q]] by {
                        assert(pickers@[q] != pickers@[p as int]);
                    }
                    assert(a == old(store)@[id]);
                    assert forall|q: int, f2: int|
                        0 <= q < p + 1 && lone_wanderer(old(store)@, pickers@[q]) && #[trigger] first_food_is(
                            old(foods)@,
                            old(store)@[pickers@[q]].x as int,
                            old(store)@[pickers@[q]].y as int,
                            f2,
                        ) implies store@[pickers@[q]] == picked_up(
                            old(store)@[pickers@[q]],
                            pickup_amount(old(foods)@[f2].amount, config.food.food_per_pickup) as u8,
                        ) && foods@[f2].amount == old(foods)@[f2].amount - pickup_amount(old(foods)@[f2].amount, config.food.food_per_pickup) by {
                        if q == p {
                            lemma_lone_first(old(store)@, old(foods)@, foods_before, pickers@, p as int, id, f as int, f2);
                        } else {
                            let pq = pickers@[q];
                            assert(pq != id);
                            assert(old(store)@.contains_key(id));
                            assert(!(old(store)@[id].x == old(store)@[pq].x && old(store)@[id].y == old(store)@[pq].y));
                            assert(f as int != f2);
                        }
                    }
                    assert forall|q: int| 0 <= q < p + 1 && food_at(foods@, old(store)@[pickers@[q]].x as int, old(store)@[pickers@[q]].y as int)
                        implies (#[trigger] store@[pickers@[q]]).state == AntState::Carrying by {
                        if q < p {
                            assert(food_at(foods@, old(store)@[pickers@[q]].x as int, old(store)@[pickers@[q]].y as int));
                            assert(pickers@[q] != pickers@[p as int]);
                            let g = choose|g: int| 0 <= g < foods@.len() && (#[trigger] foods@[g]).x == old(store)@[pickers@[q]].x
                                && foods@[g].y == old(store)@[pickers@[q]].y && foods@[g].amount > 0;
                            assert(foods_before[g].amount >= foods@[g].amount);
                            assert(food_at(foods_before, old(store)@[pickers@[q]].x as int, old(store)@[pickers@[q]].y as int));
                        }
                    }
                }
            },
            _ => {
                proof {
                    if config.food.food_per_pickup > 0 {
                        assert(a == old(store)@[id]);
                        assert forall|f2: int|
                            lone_wanderer(old(store)@, id) && first_food_is(old(foods)@, a.x as int, a.y as int, f2) implies false by {
                            lemma_lone_untouched(old(store)@, old(foods)@, foods_before, pickers@, p as int, id, f2);
                            assert(food_at(foods_before, a.x as int, a.y as int));
                        }
                        assert forall|q: int| 0 <= q < p + 1 && food_at(foods@, old(store)@[pickers@[q]].x as int, old(store)@[pickers@[q]].y as int)
                            implies (#[trigger] store@[pickers@[q]]).state == AntState::Carrying by {
                            if q == p {
                                assert(a == old(store)@[pickers@[q]]);
                            }
                        }
                    }
                }
            },
        }
        p = p + 1;
    }
    proof {
        if config.food.food_per_pickup > 0 {
        assert forall|k: u64|
            old(store)@.contains_key(k) && old(store)@[k].role == AntRole::Worker && old(store)@[k].state == AntState::Wandering
                && food_at(foods@, old(store)@[k].x as int, old(store)@[k].y as int)
                implies (#[trigger] store@[k]).state == AntState::Carrying by {
            let j = lemma_listed_index(ids@, k);
            assert(pickers@.contains(ids@[j]));
            let q = choose|q: int| 0 <= q < pickers@.len() && pickers@[q] == k;
        }
        }
    }
    proof {
        assert(agents.take(ids@.len() as int) =~= agents);
        assert(depositors@.take(0) =~= Seq::<u8>::empty());
    }
    let mut d: usize = 0;
    while d < depositors.len()
        invariant
            0 <= d <= depositors@.len(),
            colonies@.len() == old(colonies)@.len(),
            forall|c: int| 0 <= c < old(colonies)@.len() ==> (#[trigger] colonies@[c]).food_stored == sat_add_u32(
                old(colonies)@[c].food_stored,
                listed_units(depositors@.take(d as int), c, config.food.food_per_deposit),
            ),
            forall|c: int| 0 <= c < old(colonies)@.len() ==> (#[trigger] colonies@[c]).food_stored >= old(colonies)@[c].food_stored
                && colonies@[c].home_x == old(colonies)@[c].home_x && colonies@[c].home_y == old(colonies)@[c].home_y
                && colonies@[c].id == old(colonies)@[c].id && colonies@[c].food_fraction == old(colonies)@[c].food_fraction,
        decreases depositors@.len() - d,
    {
        let c = depositors[d] as usize;
        proof {
            assert(depositors@.take(d as int + 1).drop_last() =~= depositors@.take(d as int));
            lemma_listed_units_nonneg(depositors@.take(d as int), config.food.food_per_deposit);
        }
        if c < colonies.len() {
            let mut col = colonies[c];
            col.food_stored = col.food_stored.saturating_add(config.food.food_per_deposit as u32);
            colonies.set(c, col);
        }
        d = d + 1;
    }
    proof {
        assert(depositors@.take(depositors@.len() as int) =~= depositors@);
        assert(agents == ids@.map_values(|k: u64| old(store)@[k]));
    }
}

proof fn lemma_listed_units_nonneg(ds: Seq<u8>, per: u8)
    ensures
        forall|c: int| #[trigger] listed_units(ds, c, per) >= 0,
    decreases ds.len(),
{
    if ds.len() > 0 {
        lemma_listed_units_nonneg(ds.drop_last(), per);
        assert forall|c: int| #[trigger] listed_units(ds, c, per) >= 0 by {
            assert(listed_units(ds.drop_last(), c, per) >= 0);
        }
    }
}

/// Food regrowth on regrow ticks: a node below the initial amount gains its rate.
pub open spec fn regrown(f: FoodSource, cfg: FoodConfig) -> FoodSource {
    if f.amount < cfg.initial_amount {
        FoodSource {
            amount: if f.amount + f.regrow_rate > u16::MAX {
                u16::MAX
            } else {
                (f.amount + f.regrow_rate) as u16
            },
            ..f
        }
    } else {
        f
    }
}

/// Regrows every node on regrow ticks.
pub fn food_regrow_system(foods: &mut Vec<FoodSource>, tick: u64, config: &SimConfig)
    ensures
        final(foods)@.len() == old(foods)@.len(),
        forall|f: int|
            0 <= f < old(foods)@.len() ==> #[trigger] final(foods)@[f] == if config.food.regrow_interval > 0 && tick
                % config.food.regrow_interval == 0 {
                regrown(old(foods)@[f], config.food)
            } else {
                old(foods)@[f]
            },
{
    if config.food.regrow_interval == 0 || tick % config.food.regrow_interval != 0 {
        return ;
    }
    let mut f: usize = 0;
    while f < foods.len()
        invariant
            0 <= f <= foods@.len(),
            foods@.len() == old(foods)@.len(),
            forall|g: int| 0 <= g < f ==> #[trigger] foods@[g] == regrown(old(foods)@[g], config.food),
            forall|g: int| f <= g < foods@.len() ==> #[trigger] foods@[g] == old(foods)@[g],
        decreases foods@.len() - f,
    {
        let node = foods[f];
        if node.amount < config.food.initial_amount {
            let sum: u32 = node.amount as u32 + node.regrow_rate as u32;
            let amount: u16 = if sum > u16::MAX as u32 {
                u16::MAX
            } else {
                sum as u16
            };
            foods.set(f, FoodSource { amount, ..node });
        }
        f = f + 1;
    }
}

/// Direction toward home for a carrying agent: the straight step if passable, else
/// its horizontal then its vertical part; none when at home or blocked.
pub open spec fn home_step(a: Agent, terrain: &Terrain, colony: ColonyState) -> Option<(int, int)> {
    let dx = if colony.home_x > a.x {
        1int
    } else if colony.home_x < a.x {
        -1
    } else {
        0
    };
    let dy = if colony.home_y > a.y {
        1int
    } else if colony.home_y < a.y {
        -1
    } else {
        0
    };
    if dx == 0 && dy == 0 {
        None
    } else if terrain.passable(a.x + dx, a.y + dy) {
        Some((dx, dy))
    } else if dx != 0 && terrain.passable(a.x + dx, a.y as int) {
        Some((dx, 0))
    } else if dy != 0 && terrain.passable(a.x as int, a.y + dy) {
        Some((0, dy))
    } else {
        None
    }
}

fn passable_offset(terrain: &Terrain, x: i32, y: i32, dx: i32, dy: i32) -> (r: bool)
    requires
        terrain.wf(),
    ensures
        r == terrain.passable(x + dx, y + dy),
{
    let nx: i64 = x as i64 + dx as i64;
    let ny: i64 = y as i64 + dy as i64;
    if nx < 0 || ny < 0 || nx > i32::MAX as i64 || ny > i32::MAX as i64 {
        return false;
    }
    terrain.is_passable(nx as i32, ny as i32)
}

/// Movement of a foraging worker. Wandering: follow food scent when some is felt
/// where it stands. Carrying: step toward home, else follow home scent.
pub fn foraging_movement(
    a: &Agent,
    terrain: &Terrain,
    pheromones: &PheromoneGrid,
    colonies: &Vec<ColonyState>,
    config: &SimConfig,
) -> (r: Option<(i32, i32)>)
    requires
        terrain.wf(),
        pheromones.wf(),
    ensures
        a.state != AntState::Wandering && a.state != AntState::Carrying ==> r is None,
        a.state == AntState::Carrying && (a.colony_id as int) >= colonies@.len() ==> r is None,
        a.state == AntState::Carrying && (a.colony_id as int) < colonies@.len() && home_step(
            *a,
            terrain,
            colonies@[a.colony_id as int],
        ) is Some ==> (r matches Some(d) && home_step(*a, terrain, colonies@[a.colony_id as int]) == Some(
            (d.0 as int, d.1 as int),
        )),
        a.state == AntState::Wandering && pheromones.value(a.x as int, a.y as int, a.colony_id as int, PheromoneType::Food)
            <= config.food.food_pheromone_threshold ==> r is None,
        r matches Some(d) ==> terrain.passable(a.x + d.0, a.y + d.1) && d != (0i32, 0i32) && -1 <= d.0 <= 1 && -1 <= d.1
            <= 1,
        a.state == AntState::Wandering && pheromones.value(a.x as int, a.y as int, a.colony_id as int, PheromoneType::Food)
            > config.food.food_pheromone_threshold ==> (pheromones.weight_prefix(
            a.x as int,
            a.y as int,
            a.colony_id as int,
            PheromoneType::Food,
            8,
        ) == 0 ==> r is None) && (r matches Some(d) ==> exists|roll: int|
            0 <= roll < pheromones.weight_prefix(a.x as int, a.y as int, a.colony_id as int, PheromoneType::Food, 8)
                && #[trigger] pheromones.weighted_pick(a.x as int, a.y as int, a.colony_id as int, PheromoneType::Food, roll)
                == Some((d.0 as int, d.1 as int))),
{
    match a.state {
        AntState::Wandering => {
            let here = pheromones.get(a.x, a.y, a.colony_id, PheromoneType::Food);
            if here <= config.food.food_pheromone_threshold {
                return None;
            }
            follow_pheromone(pheromones, a.x, a.y, a.colony_id, PheromoneType::Food, terrain)
        },
        AntState::Carrying => {
            let c = a.colony_id as usize;
            if c >= colonies.len() {
                return None;
            }
            let home_x = colonies[c].home_x;
            let home_y = colonies[c].home_y;
            let dx: i32 = if home_x > a.x {
                1
            } else if home_x < a.x {
                -1
            } else {
                0
            };
            let dy: i32 = if home_y > a.y {
                1
            } else if home_y < a.y {
                -1
            } else {
                0
            };
            if dx != 0 || dy != 0 {
                if passable_offset(terrain, a.x, a.y, dx, dy) {
                    return Some((dx, dy));
                }
                if dx != 0 && passable_offset(terrain, a.x, a.y, dx, 0) {
                    return Some((dx, 0));
                }
                if dy != 0 && passable_offset(terrain, a.x, a.y, 0, dy) {
                    return Some((0, dy));
                }
            }
            follow_pheromone(pheromones, a.x, a.y, a.colony_id, PheromoneType::Home, terrain)
        },
        _ => None,
    }
}

/// Places up to `count` food nodes on random surface tiles: the passable tile just
/// above the first impassable one of a random column.
pub fn spawn_food_sources(terrain: &Terrain, count: usize, config: &SimConfig) -> (r: Vec<FoodSource>)
    requires
        terrain.wf(),
    ensures
        r@.len() <= count,
        forall|f: int| 0 <= f < r@.len() ==> terrain.passable((#[trigger] r@[f]).x as int, r@[f].y as int)
            && r@[f].amount == config.food.initial_amount && r@[f].regrow_rate == config.food.regrow_rate,
{
    let mut foods: Vec<FoodSource> = Vec::new();
    if terrain.width == 0 {
        return foods;
    }
    let w = terrain.width as i32;
    let max_attempts: usize = if count <= usize::MAX / 10 {
        count * 10
    } else {
        usize::MAX
    };
    let mut attempts: usize = 0;
    while foods.len() < count && attempts < max_attempts
        invariant
            terrain.wf(),
            w == terrain.width,
            w > 0,
            foods@.len() <= count,
            forall|f: int| 0 <= f < foods@.len() ==> terrain.passable((#[trigger] foods@[f]).x as int, foods@[f].y as int)
                && foods@[f].amount == config.food.initial_amount && foods@[f].regrow_rate == config.food.regrow_rate,
        decreases max_attempts - attempts,
    {
        attempts = attempts + 1;
        let x = random_i32(0, w - 1);
        match surface_of(terrain, x) {
            Some(y) => {
                if y > 1 && terrain.is_passable(x, y - 1) {
                    foods.push(
                        FoodSource { x, y: y - 1, amount: config.food.initial_amount, regrow_rate: config.food.regrow_rate },
                    );
                }
            },
            None => {},
        }
    }
    foods
}

} // verus!
