use vstd::prelude::*;

use crate::agent::{Agent, AntRole};
use crate::colony::ColonyState;
use crate::config::SimConfig;
use crate::food::{manhattan, manhattan_distance};
use crate::random::random_i32;
use crate::terrain::Terrain;
use crate::water::surface_of;
use crate::world::AgentStore;

verus! {

/// Colonies told apart when counting agents near an aphid; higher ids share the last.
pub const TRACKED_COLONIES: usize = 6;

/// A farmable aphid; its yield is in thousandths of a food unit per tick.
#[derive(Clone, Copy, Debug, PartialEq, Eq)]
pub struct Aphid {
    pub x: i32,
    pub y: i32,
    pub food_per_tick: u32,
    pub colony_owner: Option<u8>,
}

/// Display glyph of an aphid and the colony that owns it, if any.
pub fn aphid_char(aphid: &Aphid) -> (r: (char, Option<u8>))
    ensures
        r == ('a', aphid.colony_owner),
{
    ('a', aphid.colony_owner)
}

/// Colony `c` has strictly more agents near than every other.
pub open spec fn strict_max(counts: Seq<u32>, c: int) -> bool {
    &&& 0 <= c < counts.len()
    &&& forall|d: int| 0 <= d < counts.len() && d != c ==> #[trigger] counts[d] < counts[c]
}

/// Owner after a count of nearby agents per colony: nobody near frees the aphid;
/// a colony with strictly more agents near than every other claims it; on a tie
/// for the most, the owner stays.
pub open spec fn claimed_owner(counts: Seq<u32>, owner: Option<u8>) -> Option<u8> {
    if forall|c: int| 0 <= c < counts.len() ==> #[trigger] counts[c] == 0 {
        None
    } else if exists|c: int| #[trigger] strict_max(counts, c) {
        Some(
            (choose|c: int| #[trigger] strict_max(counts, c)) as u8,
        )
    } else {
        owner
    }
}

/// Ownership decision for one aphid.
pub fn claim_owner(counts: &Vec<u32>, owner: Option<u8>) -> (r: Option<u8>)
    requires
        counts@.len() <= 256,
    ensures
        r == claimed_owner(counts@, owner),
{
    let n = counts.len();
    if n == 0 {
        return None;
    }
    let mut best: usize = 0;
    let mut tie = false;
    let mut k: usize = 1;
    while k < n
        invariant
            n == counts@.len(),
            1 <= k <= n,
            best < k,
            forall|d: int| 0 <= d < k ==> #[trigger] counts@[d] <= counts@[best as int],
            !tie ==> forall|d: int| 0 <= d < k && d != best ==> #[trigger] counts@[d] < counts@[best as int],
            tie ==> exists|d: int| 0 <= d < k && d != best && #[trigger] counts@[d] == counts@[best as int],
        decreases n - k,
    {
        if counts[k] > counts[best] {
            best = k;
            tie = false;
        } else if counts[k] == counts[best] {
            tie = true;
        }
        k = k + 1;
    }
    if counts[best] == 0 {
        proof {
            assert forall|c: int| 0 <= c < counts@.len() implies #[trigger] counts@[c] == 0 by {
                assert(counts@[c] <= counts@[best as int]);
            }
        }
        return None;
    }
    proof {
        assert(counts@[best as int] != 0);
    }
    if !tie {
        proof {
            assert(strict_max(counts@, best as int));
            let c = choose|c: int| #[trigger] strict_max(counts@, c);
            if c != best {
                assert(counts@[c] < counts@[best as int]);
                assert(counts@[best as int] < counts@[c]);
            }
        }
        Some(best as u8)
    } else {
        proof {
            let t = choose|d: int| 0 <= d < n && d != best && #[trigger] counts@[d] == counts@[best as int];
            assert(!exists|c: int| #[trigger] strict_max(counts@, c)) by {
                if exists|c: int| #[trigger] strict_max(counts@, c) {
                    let c = choose|c: int| #[trigger] strict_max(counts@, c);
                    if c == best {
                        assert(counts@[t] < counts@[c]);
                    } else {
                        assert(counts@[best as int] < counts@[c]);
                    }
                }
            }
        }
        owner
    }
}

/// Counting slot of a colony: ids beyond the tracked ones share the last slot.
pub open spec fn slot_of(colony: u8) -> int {
    if (colony as int) < TRACKED_COLONIES {
        colony as int
    } else {
        TRACKED_COLONIES - 1
    }
}

/// Workers and soldiers of `s` in slot `slot` within `dist` of (ax, ay).
pub open spec fn agents_near(s: Seq<Agent>, ax: int, ay: int, slot: int, dist: int) -> int
    decreases s.len(),
{
    if s.len() == 0 {
        0
    } else {
        let a = s.last();
        agents_near(s.drop_last(), ax, ay, slot, dist) + if (a.role == AntRole::Worker || a.role == AntRole::Soldier)
            && manhattan(ax, ay, a.x as int, a.y as int) <= dist && slot_of(a.colony_id) == slot {
            1int
        } else {
            0
        }
    }
}

/// Listed positions in slot `slot` within `dist` of (ax, ay).
pub open spec fn points_near(s: Seq<(i32, i32, u8)>, ax: int, ay: int, slot: int, dist: int) -> int
    decreases s.len(),
{
    if s.len() == 0 {
        0
    } else {
        let p = s.last();
        points_near(s.drop_last(), ax, ay, slot, dist) + if manhattan(ax, ay, p.0 as int, p.1 as int) <= dist && slot_of(p.2)
            == slot {
            1int
        } else {
            0
        }
    }
}

pub open spec fn capped_u32(n: int) -> u32 {
    if n > u32::MAX {
        u32::MAX
    } else {
        n as u32
    }
}

/// Per-slot counts of the agents of `s` near (ax, ay), each capped at `u32::MAX`.
pub open spec fn claim_counts(s: Seq<Agent>, ax: int, ay: int, dist: int) -> Seq<u32> {
    Seq::new(TRACKED_COLONIES as nat, |c: int| capped_u32(agents_near(s, ax, ay, c, dist)))
}

proof fn lemma_points_near_nonneg(s: Seq<(i32, i32, u8)>, ax: int, ay: int, slot: int, dist: int)
    ensures
        points_near(s, ax, ay, slot, dist) >= 0,
    decreases s.len(),
{
    if s.len() > 0 {
        lemma_points_near_nonneg(s.drop_last(), ax, ay, slot, dist);
    }
}

/// `c` after earning `milli` thousandths of a food unit: whole units go to the store.
pub open spec fn earned(c: ColonyState, milli: u32) -> ColonyState {
    let total = c.food_fraction + milli;
    ColonyState {
        food_stored: if c.food_stored + total / 1000 > u32::MAX {
            u32::MAX
        } else {
            (c.food_stored + total / 1000) as u32
        },
        food_fraction: (total % 1000) as u32,
        ..c
    }
}

/// Yields of the owned aphids of `s`, in order: owner and thousandths per tick.
pub open spec fn yields(s: Seq<Aphid>) -> Seq<(u8, u32)>
    decreases s.len(),
{
    if s.len() == 0 {
        Seq::empty()
    } else {
        match s.last().colony_owner {
            Some(o) => yields(s.drop_last()).push((o, s.last().food_per_tick)),
            None => yields(s.drop_last()),
        }
    }
}

/// Colony `c` after earning, in turn, the yields of `ys` that are its own.
pub open spec fn earned_all(col: ColonyState, ys: Seq<(u8, u32)>, c: int) -> ColonyState
    decreases ys.len(),
{
    if ys.len() == 0 {
        col
    } else {
        let prev = earned_all(col, ys.drop_last(), c);
        if ys.last().0 as int == c {
            earned(prev, ys.last().1)
        } else {
            prev
        }
    }
}

/// Aphid farming for one tick. Each aphid counts the workers and soldiers of each
/// colony within the nearby distance, changes owner by `claimed_owner`, and its
/// owner at the start of the tick earns its yield.
pub fn aphid_system(
    store: &AgentStore,
    colonies: &mut Vec<ColonyState>,
    aphids: &mut Vec<Aphid>,
    config: &SimConfig,
)
    requires
        forall|c: int| 0 <= c < old(colonies)@.len() ==> (#[trigger] old(colonies)@[c]).food_fraction < 1000,
    ensures
        final(aphids)@.len() == old(aphids)@.len(),
        forall|f: int| 0 <= f < old(aphids)@.len() ==> (#[trigger] final(aphids)@[f]).x == old(aphids)@[f].x
            && final(aphids)@[f].y == old(aphids)@[f].y && final(aphids)@[f].food_per_tick == old(aphids)@[f].food_per_tick,
        exists|ids: Seq<u64>|
            ids.no_duplicates() && #[trigger] ids.to_set() == store@.dom() && forall|f: int|
                0 <= f < old(aphids)@.len() ==> (#[trigger] final(aphids)@[f]).colony_owner == claimed_owner(
                    claim_counts(
                        ids.map_values(|k: u64| store@[k]),
                        old(aphids)@[f].x as int,
                        old(aphids)@[f].y as int,
                        config.spawn.aphid_nearby_distance as int,
                    ),
                    old(aphids)@[f].colony_owner,
                ),
        final(colonies)@.len() == old(colonies)@.len(),
        forall|c: int|
            0 <= c < old(colonies)@.len() ==> #[trigger] final(colonies)@[c] == earned_all(old(colonies)@[c], yields(old(aphids)@), c),
        forall|c: int| 0 <= c < old(colonies)@.len() ==> (#[trigger] final(colonies)@[c]).food_stored >= old(colonies)@[c].food_stored
            && final(colonies)@[c].food_fraction < 1000 && final(colonies)@[c].home_x == old(colonies)@[c].home_x
            && final(colonies)@[c].home_y == old(colonies)@[c].home_y && final(colonies)@[c].id == old(colonies)@[c].id,
{
    let ids = store.ids();
    let ghost agents = ids@.map_values(|k: u64| store@[k]);
    let ghost dist = config.spawn.aphid_nearby_distance as int;
    let mut ants: Vec<(i32, i32, u8)> = Vec::new();
    let mut i: usize = 0;
    while i < ids.len()
        invariant
            0 <= i <= ids@.len(),
            agents == ids@.map_values(|k: u64| store@[k]),
            forall|j: int| 0 <= j < ids@.len() ==> store@.contains_key(#[trigger] ids@[j]),
            forall|ax: int, ay: int, slot: int|
                #[trigger] points_near(ants@, ax, ay, slot, dist) == agents_near(agents.take(i as int), ax, ay, slot, dist),
        decreases ids@.len() - i,
    {
        let a = store.get(ids[i]).unwrap();
        let ghost before = ants@;
        proof {
            assert(agents[i as int] == a);
            assert(agents.take(i as int + 1).drop_last() =~= agents.take(i as int));
        }
        if a.role == AntRole::Worker || a.role == AntRole::Soldier {
            ants.push((a.x, a.y, a.colony_id));
            proof {
                assert(ants@.drop_last() =~= before);
            }
        }
        proof {
            assert forall|ax: int, ay: int, slot: int|
                #[trigger] points_near(ants@, ax, ay, slot, dist) == agents_near(agents.take(i as int + 1), ax, ay, slot, dist) by {
                assert(points_near(before, ax, ay, slot, dist) == agents_near(agents.take(i as int), ax, ay, slot, dist));
                assert(agents.take(i as int + 1).last() == a);
                if ants@.len() > before.len() {
                    assert(ants@.drop_last() =~= before);
                } else {
                    assert(ants@ == before);
                }
            }
        }
        i = i + 1;
    }
    proof {
        assert(agents.take(ids@.len() as int) =~= agents);
    }
    let mut production: Vec<(u8, u32)> = Vec::new();
    let mut f: usize = 0;
    while f < aphids.len()
        invariant
            0 <= f <= aphids@.len(),
            aphids@.len() == old(aphids)@.len(),
            forall|g: int| 0 <= g < old(aphids)@.len() ==> (#[trigger] aphids@[g]).x == old(aphids)@[g].x
                && aphids@[g].y == old(aphids)@[g].y && aphids@[g].food_per_tick == old(aphids)@[g].food_per_tick,
            forall|ax: int, ay: int, slot: int|
                #[trigger] points_near(ants@, ax, ay, slot, dist) == agents_near(agents, ax, ay, slot, dist),
            dist == config.spawn.aphid_nearby_distance as int,
            forall|g: int| 0 <= g < f ==> (#[trigger] aphids@[g]).colony_owner == claimed_owner(
                claim_counts(agents, old(aphids)@[g].x as int, old(aphids)@[g].y as int, dist),
                old(aphids)@[g].colony_owner,
            ),
            forall|g: int| f <= g < aphids@.len() ==> (#[trigger] aphids@[g]) == old(aphids)@[g],
            production@ == yields(old(aphids)@.take(f as int)),
        decreases aphids@.len() - f,
    {
        let aphid = aphids[f];
        let mut counts: Vec<u32> = Vec::new();
        let mut c: usize = 0;
        while c < TRACKED_COLONIES
            invariant
                0 <= c <= TRACKED_COLONIES,
                counts@.len() == c,
                forall|d: int| 0 <= d < c ==> #[trigger] counts@[d] == 0,
            decreases TRACKED_COLONIES - c,
        {
            counts.push(0);
            c = c + 1;
        }
        proof {
            assert(ants@.take(0) =~= Seq::<(i32, i32, u8)>::empty());
        }
        let mut k: usize = 0;
        while k < ants.len()
            invariant
                0 <= k <= ants@.len(),
                counts@.len() == TRACKED_COLONIES,
                dist == config.spawn.aphid_nearby_distance as int,
                forall|c: int| 0 <= c < TRACKED_COLONIES ==> #[trigger] counts@[c] == capped_u32(
                    points_near(ants@.take(k as int), aphid.x as int, aphid.y as int, c, dist),
                ),
            decreases ants@.len() - k,
        {
            proof {
                assert(ants@.take(k as int + 1).drop_last() =~= ants@.take(k as int));
                assert forall|c: int| 0 <= c < TRACKED_COLONIES implies points_near(ants@.take(k as int), aphid.x as int, aphid.y as int, c, dist) >= 0 by {
                    lemma_points_near_nonneg(ants@.take(k as int), aphid.x as int, aphid.y as int, c, dist);
                }
            }
            let (ax, ay, colony) = ants[k];
            if manhattan_distance(aphid.x, aphid.y, ax, ay) <= config.spawn.aphid_nearby_distance as i64 {
                let idx: usize = if (colony as usize) < TRACKED_COLONIES {
                    colony as usize
                } else {
                    TRACKED_COLONIES - 1
                };
                let v = counts[idx];
                if v < u32::MAX {
                    counts.set(idx, v + 1);
                }
            }
            k = k + 1;
        }
        proof {
            assert(ants@.take(ants@.len() as int) =~= ants@);
            assert(counts@ =~= claim_counts(agents, aphid.x as int, aphid.y as int, dist));
        }
        let owner = claim_owner(&counts, aphid.colony_owner);
        proof {
            assert(old(aphids)@.take(f as int + 1).drop_last() =~= old(aphids)@.take(f as int));
            assert(old(aphids)@.take(f as int + 1).last() == aphid);
        }
        match aphid.colony_owner {
            Some(o) => production.push((o, aphid.food_per_tick)),
            None => {},
        }
        let ghost before = aphids@;
        aphids.set(f, Aphid { colony_owner: owner, ..aphid });
        proof {
            assert forall|g: int| 0 <= g < f + 1 implies (#[trigger] aphids@[g]).colony_owner == claimed_owner(
                claim_counts(agents, old(aphids)@[g].x as int, old(aphids)@[g].y as int, dist),
                old(aphids)@[g].colony_owner,
            ) by {
                if g < f {
                    assert(aphids@[g] == before[g]);
                }
            }
        }
        f = f + 1;
    }
    let ghost farmed = aphids@;
    proof {
        assert(old(aphids)@.take(old(aphids)@.len() as int) =~= old(aphids)@);
        assert(production@.take(0) =~= Seq::<(u8, u32)>::empty());
    }
    let mut p: usize = 0;
    while p < production.len()
        invariant
            0 <= p <= production@.len(),
            aphids@ == farmed,
            production@ == yields(old(aphids)@),
            forall|c: int|
                0 <= c < old(colonies)@.len() ==> #[trigger] colonies@[c] == earned_all(old(colonies)@[c], production@.take(p as int), c),
            colonies@.len() == old(colonies)@.len(),
            forall|c: int| 0 <= c < old(colonies)@.len() ==> (#[trigger] colonies@[c]).food_stored >= old(colonies)@[c].food_stored
                && colonies@[c].food_fraction < 1000 && colonies@[c].home_x == old(colonies)@[c].home_x
                && colonies@[c].home_y == old(colonies)@[c].home_y && colonies@[c].id == old(colonies)@[c].id,
        decreases production@.len() - p,
    {
        let (owner, milli) = production[p];
        let c = owner as usize;
        proof {
            assert(production@.take(p as int + 1).drop_last() =~= production@.take(p as int));
            assert(production@.take(p as int + 1).last() == (owner, milli));
        }
        if c < colonies.len() {
            let mut col = colonies[c];
            let total: u64 = col.food_fraction as u64 + milli as u64;
            let whole: u64 = col.food_stored as u64 + total / 1000;
            col.food_stored = if whole > u32::MAX as u64 {
                u32::MAX
            } else {
                whole as u32
            };
            col.food_fraction = (total % 1000) as u32;
            colonies.set(c, col);
        }
        p = p + 1;
    }
    proof {
        assert(production@.take(p as int) =~= production@);
    }
}

/// Places up to `count` aphids in passable tiles three to ten rows below the first
/// impassable tile of random columns.
pub fn spawn_aphids(terrain: &Terrain, count: usize, config: &SimConfig) -> (r: Vec<Aphid>)
    requires
        terrain.wf(),
    ensures
        r@.len() <= count,
        forall|f: int| 0 <= f < r@.len() ==> terrain.passable((#[trigger] r@[f]).x as int, r@[f].y as int)
            && r@[f].colony_owner is None && r@[f].food_per_tick == config.spawn.aphid_food_rate,
{
    let mut aphids: Vec<Aphid> = Vec::new();
    if terrain.width == 0 {
        return aphids;
    }
    let w = terrain.width as i32;
    let max_attempts: usize = if count <= usize::MAX / 20 {
        count * 20
    } else {
        usize::MAX
    };
    let mut attempts: usize = 0;
    while aphids.len() < count && attempts < max_attempts
        invariant
            terrain.wf(),
            w == terrain.width,
            w > 0,
            aphids@.len() <= count,
            forall|f: int| 0 <= f < aphids@.len() ==> terrain.passable((#[trigger] aphids@[f]).x as int, aphids@[f].y as int)
                && aphids@[f].colony_owner is None && aphids@[f].food_per_tick == config.spawn.aphid_food_rate,
        decreases max_attempts - attempts,
    {
        attempts = attempts + 1;
        let x = random_i32(0, w - 1);
        let surface_y: i32 = match surface_of(terrain, x) {
            Some(y) => y,
            None => 0,
        };
        let depth = random_i32(3, 10);
        if surface_y < i32::MAX - 10 && terrain.is_passable(x, surface_y + depth) {
            let y = surface_y + depth;
            aphids.push(Aphid { x, y, food_per_tick: config.spawn.aphid_food_rate, colony_owner: None });
        }
    }
    aphids
}

} // verus!
