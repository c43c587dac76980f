use vstd::prelude::*;

use crate::agent::{Agent, AntRole, AntState};
use crate::colony::ColonyState;
use crate::combat::{fighting_movement, fleeing_movement};
use crate::config::SimConfig;
use crate::food::{foraging_movement, home_step};
use crate::pheromone::PheromoneGrid;
use crate::random::{random_bool, random_index, random_u8};
use crate::terrain::Terrain;
use crate::world::{lemma_apply_listed, lemma_listed_index, AgentStore};

verus! {

/// The `k`-th direction of the random walk: up, down twice, left, right, the two
/// lower corners and staying put, so that walks drift downward.
pub open spec fn walk_direction(k: int) -> (int, int) {
    if k == 0 {
        (0, -1)
    } else if k == 1 || k == 2 {
        (0, 1)
    } else if k == 3 {
        (-1, 0)
    } else if k == 4 {
        (1, 0)
    } else if k == 5 {
        (-1, 1)
    } else if k == 6 {
        (1, 1)
    } else {
        (0, 0)
    }
}

/// The random walk's direction for a roll below eight.
pub fn walk_step(k: usize) -> (r: (i32, i32))
    ensures
        (r.0 as int, r.1 as int) == walk_direction(k as int),
{
    match k {
        0 => (0, -1),
        1 | 2 => (0, 1),
        3 => (-1, 0),
        4 => (1, 0),
        5 => (-1, 1),
        6 => (1, 1),
        _ => (0, 0),
    }
}

/// A random walk step.
pub fn random_movement() -> (r: (i32, i32))
    ensures
        exists|k: int| 0 <= k < 8 && #[trigger] walk_direction(k) == (r.0 as int, r.1 as int),
{
    let k = random_index(8);
    walk_step(k)
}

/// Directions tried by a digger, in order: down, lower corners, sides.
pub open spec fn dig_direction(k: int) -> (int, int) {
    if k == 0 {
        (0, 1)
    } else if k == 1 {
        (-1, 1)
    } else if k == 2 {
        (1, 1)
    } else if k == 3 {
        (-1, 0)
    } else {
        (1, 0)
    }
}

/// Directions tried by a climber, in order: up, upper corners, sides.
pub open spec fn climb_direction(k: int) -> (int, int) {
    if k == 0 {
        (0, -1)
    } else if k == 1 {
        (-1, -1)
    } else if k == 2 {
        (1, -1)
    } else if k == 3 {
        (-1, 0)
    } else {
        (1, 0)
    }
}

/// First dig direction, from the `k`-th on, that leads into an open tile.
pub open spec fn first_dig(t: &Terrain, x: int, y: int, k: int) -> Option<(int, int)>
    decreases 5 - k,
{
    if k < 0 || k >= 5 {
        None
    } else if t.is_open(x + dig_direction(k).0, y + dig_direction(k).1) {
        Some(dig_direction(k))
    } else {
        first_dig(t, x, y, k + 1)
    }
}

/// First climb direction, from the `k`-th on, that leads onto a passable tile.
pub open spec fn first_climb(t: &Terrain, x: int, y: int, k: int) -> Option<(int, int)>
    decreases 5 - k,
{
    if k < 0 || k >= 5 {
        None
    } else if t.passable(x + climb_direction(k).0, y + climb_direction(k).1) {
        Some(climb_direction(k))
    } else {
        first_climb(t, x, y, k + 1)
    }
}

/// The step an agent's state dictates without any roll: diggers into the first
/// open tile of their dig order, climbers onto the first passable tile upward,
/// carriers straight toward home. Brood and queens have none.
pub open spec fn forced_step(a: Agent, t: &Terrain, colonies: Seq<ColonyState>) -> Option<(int, int)> {
    if a.role == AntRole::Egg || a.role == AntRole::Larvae || a.role == AntRole::Queen {
        None
    } else {
        match a.state {
            AntState::Digging => first_dig(t, a.x as int, a.y as int, 0),
            AntState::Returning => first_climb(t, a.x as int, a.y as int, 0),
            AntState::Carrying => if (a.colony_id as int) < colonies.len() {
                home_step(a, t, colonies[a.colony_id as int])
            } else {
                None
            },
            _ => None,
        }
    }
}

/// A dig step found leads into an open tile, one tile away.
pub proof fn lemma_first_dig(t: &Terrain, x: int, y: int, k: int)
    ensures
        first_dig(t, x, y, k) matches Some(d) ==> t.is_open(x + d.0, y + d.1) && -1 <= d.0 <= 1 && -1 <= d.1 <= 1
            && d != (0int, 0int),
    decreases 5 - k,
{
    if 0 <= k < 5 && !t.is_open(x + dig_direction(k).0, y + dig_direction(k).1) {
        lemma_first_dig(t, x, y, k + 1);
    }
}

/// A climb step found leads onto a passable tile, one tile away.
pub proof fn lemma_first_climb(t: &Terrain, x: int, y: int, k: int)
    ensures
        first_climb(t, x, y, k) matches Some(d) ==> t.passable(x + d.0, y + d.1) && -1 <= d.0 <= 1 && -1 <= d.1 <= 1
            && d != (0int, 0int),
    decreases 5 - k,
{
    if 0 <= k < 5 && !t.passable(x + climb_direction(k).0, y + climb_direction(k).1) {
        lemma_first_climb(t, x, y, k + 1);
    }
}

fn dig_direction_exec(k: usize) -> (r: (i32, i32))
    ensures
        (r.0 as int, r.1 as int) == dig_direction(k as int),
{
    match k {
        0 => (0, 1),
        1 => (-1, 1),
        2 => (1, 1),
        3 => (-1, 0),
        _ => (1, 0),
    }
}

fn climb_direction_exec(k: usize) -> (r: (i32, i32))
    ensures
        (r.0 as int, r.1 as int) == climb_direction(k as int),
{
    match k {
        0 => (0, -1),
        1 => (-1, -1),
        2 => (1, -1),
        3 => (-1, 0),
        _ => (1, 0),
    }
}

fn open_at_offset(terrain: &Terrain, x: i32, y: i32, dx: i32, dy: i32) -> (r: bool)
    requires
        terrain.wf(),
    ensures
        r == terrain.is_open(x + dx, y + dy),
{
    let nx: i64 = x as i64 + dx as i64;
    let ny: i64 = y as i64 + dy as i64;
    if nx < 0 || ny < 0 || nx > i32::MAX as i64 || ny > i32::MAX as i64 {
        return false;
    }
    terrain.is_open_at(nx as i32, ny as i32)
}

fn passable_at_offset(terrain: &Terrain, x: i32, y: i32, dx: i32, dy: i32) -> (r: bool)
    requires
        terrain.wf(),
    ensures
        r == terrain.passable(x + dx, y + dy),
{
    let nx: i64 = x as i64 + dx as i64;
    let ny: i64 = y as i64 + dy as i64;
    if nx < 0 || ny < 0 || nx > i32::MAX as i64 || ny > i32::MAX as i64 {
        return false;
    }
    terrain.is_passable(nx as i32, ny as i32)
}

/// A digger moves into the first open tile (air or tunnel) among its dig
/// directions, else stays.
pub fn dig_movement(x: i32, y: i32, terrain: &Terrain) -> (r: (i32, i32))
    requires
        terrain.wf(),
    ensures
        match first_dig(terrain, x as int, y as int, 0) {
            Some(d) => (r.0 as int, r.1 as int) == d,
            None => r == (0i32, 0i32),
        },
{
    let mut k: usize = 0;
    while k < 5
        invariant
            terrain.wf(),
            0 <= k <= 5,
            first_dig(terrain, x as int, y as int, 0) == first_dig(terrain, x as int, y as int, k as int),
        decreases 5 - k,
    {
        let (dx, dy) = dig_direction_exec(k);
        if open_at_offset(terrain, x, y, dx, dy) {
            return (dx, dy);
        }
        k = k + 1;
    }
    (0, 0)
}

/// A climber moves into the first passable tile among its climb directions; when
/// all are blocked it may step left or right on a coin flip, else stays.
pub fn climb_movement(x: i32, y: i32, terrain: &Terrain) -> (r: (i32, i32))
    requires
        terrain.wf(),
    ensures
        match first_climb(terrain, x as int, y as int, 0) {
            Some(d) => (r.0 as int, r.1 as int) == d,
            None => r == (0i32, 0i32) || r == (-1i32, 0i32) || r == (1i32, 0i32),
        },
        r == (0i32, 0i32) || terrain.passable(x + r.0, y + r.1),
        -1 <= r.0 <= 1 && -1 <= r.1 <= 1,
{
    let mut k: usize = 0;
    while k < 5
        invariant
            terrain.wf(),
            0 <= k <= 5,
            first_climb(terrain, x as int, y as int, 0) == first_climb(terrain, x as int, y as int, k as int),
        decreases 5 - k,
    {
        let (dx, dy) = climb_direction_exec(k);
        if passable_at_offset(terrain, x, y, dx, dy) {
            return (dx, dy);
        }
        k = k + 1;
    }
    if passable_at_offset(terrain, x, y, -1, 0) && random_bool() {
        return (-1, 0);
    }
    if passable_at_offset(terrain, x, y, 1, 0) && random_bool() {
        return (1, 0);
    }
    (0, 0)
}

/// `b` is `a`, or `a` moved by one step onto a passable tile; brood never moves.
pub open spec fn moved_or_stayed(a: Agent, b: Agent, terrain: &Terrain) -> bool {
    b == a || (a.role != AntRole::Egg && a.role != AntRole::Larvae && b == a.with_position(b.x, b.y)
        && terrain.passable(b.x as int, b.y as int) && -1 <= b.x - a.x <= 1 && -1 <= b.y - a.y <= 1)
}

/// Movement decided by an agent's state, applied only onto passable tiles. Brood
/// never moves and queens rarely do.
pub fn movement_system(
    store: &mut AgentStore,
    terrain: &Terrain,
    pheromones: &PheromoneGrid,
    colonies: &Vec<ColonyState>,
    config: &SimConfig,
)
    requires
        terrain.wf(),
        pheromones.wf(),
    ensures
        final(store)@.dom() == old(store)@.dom(),
        forall|k: u64| old(store)@.contains_key(k) ==> moved_or_stayed(old(store)@[k], #[trigger] final(store)@[k], terrain),
        forall|k: u64|
            old(store)@.contains_key(k) ==> (#[trigger] forced_step(old(store)@[k], terrain, colonies@) matches Some(d)
                ==> final(store)@[k] == old(store)@[k].with_position(
                (old(store)@[k].x + d.0) as i32,
                (old(store)@[k].y + d.1) as i32,
            )),
{
    let ids = store.ids();
    let mut updates: Vec<(u64, Agent)> = Vec::new();
    let mut i: usize = 0;
    while i < ids.len()
        invariant
            store@ == old(store)@,
            terrain.wf(),
            pheromones.wf(),
            0 <= i <= ids@.len(),
            ids@.no_duplicates(),
            forall|j: int| 0 <= j < ids@.len() ==> store@.contains_key(#[trigger] ids@[j]),
            updates@.len() == i,
            forall|j: int| 0 <= j < i ==> (#[trigger] updates@[j]).0 == ids@[j] && moved_or_stayed(store@[ids@[j]], updates@[j].1, terrain)
                && (forced_step(store@[ids@[j]], terrain, colonies@) matches Some(d) ==> updates@[j].1 == store@[ids@[j]].with_position(
                (store@[ids@[j]].x + d.0) as i32,
                (store@[ids@[j]].y + d.1) as i32,
            )),
        decreases ids@.len() - i,
    {
        let id = ids[i];
        let a = store.get(id).unwrap();
        let na = next_position(&a, terrain, pheromones, colonies, config);
        updates.push((id, na));
        i = i + 1;
    }
    store.apply(&updates);
    proof {
        let m = old(store)@;
        lemma_apply_listed(m, ids@, updates@);
        assert forall|k: u64| m.contains_key(k) implies moved_or_stayed(m[k], #[trigger] store@[k], terrain) by {
            let j = lemma_listed_index(ids@, k);
        }
        assert forall|k: u64| m.contains_key(k) implies (#[trigger] forced_step(m[k], terrain, colonies@) matches Some(d)
            ==> store@[k] == m[k].with_position((m[k].x + d.0) as i32, (m[k].y + d.1) as i32)) by {
            let j = lemma_listed_index(ids@, k);
        }
    }
}

/// Where one agent ends this tick's movement.
pub fn next_position(
    a: &Agent,
    terrain: &Terrain,
    pheromones: &PheromoneGrid,
    colonies: &Vec<ColonyState>,
    config: &SimConfig,
) -> (r: Agent)
    requires
        terrain.wf(),
        pheromones.wf(),
    ensures
        moved_or_stayed(*a, r, terrain),
        forced_step(*a, terrain, colonies@) matches Some(d) ==> r == a.with_position((a.x + d.0) as i32, (a.y + d.1) as i32),
{
    if a.role == AntRole::Egg || a.role == AntRole::Larvae {
        return *a;
    }
    if a.role == AntRole::Queen && random_u8(0, 255) > config.movement.queen_move_threshold {
        return *a;
    }
    let (dx, dy) = match a.state {
        AntState::Wandering => random_movement(),
        AntState::Digging => dig_movement(a.x, a.y, terrain),
        AntState::Returning => climb_movement(a.x, a.y, terrain),
        AntState::Idle => {
            if random_u8(0, 255) < config.movement.idle_move_threshold {
                random_movement()
            } else {
                (0, 0)
            }
        },
        AntState::Carrying | AntState::Following => {
            match foraging_movement(a, terrain, pheromones, colonies, config) {
                Some(d) => d,
                None => random_movement(),
            }
        },
        AntState::Fighting => {
            match fighting_movement(a.x, a.y, a.colony_id, pheromones) {
                Some(d) => d,
                None => random_movement(),
            }
        },
        AntState::Fleeing => {
            match fleeing_movement(a.x, a.y, pheromones, config) {
                Some(d) => d,
                None => random_movement(),
            }
        },
    };
    proof {
        lemma_first_dig(terrain, a.x as int, a.y as int, 0);
        lemma_first_climb(terrain, a.x as int, a.y as int, 0);
        if forced_step(*a, terrain, colonies@) is Some {
            let d = forced_step(*a, terrain, colonies@).unwrap();
            assert(dx as int == d.0 && dy as int == d.1);
            assert(terrain.passable(a.x + d.0, a.y + d.1));
        }
    }
    if (dx != 0 || dy != 0) && -1 <= dx && dx <= 1 && -1 <= dy && dy <= 1 {
        let nx: i64 = a.x as i64 + dx as i64;
        let ny: i64 = a.y as i64 + dy as i64;
        if nx >= 0 && ny >= 0 && nx <= i32::MAX as i64 && ny <= i32::MAX as i64 && terrain.is_passable(
            nx as i32,
            ny as i32,
        ) {
            return Agent { x: nx as i32, y: ny as i32, ..*a };
        }
    }
    *a
}

} // verus!
