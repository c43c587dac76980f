use vstd::prelude::*;

use crate::agent::{Agent, AntRole};
use crate::colony::ColonyState;
use crate::config::SimConfig;
use crate::food::manhattan_distance;
use crate::random::random_i32;
use crate::terrain::{Terrain, TerrainType};
use crate::world::AgentStore;

verus! {

/// First surface tile of column x, from the top.
fn surface_tile_of(terrain: &Terrain, x: i32) -> (r: Option<i32>)
    requires
        terrain.wf(),
    ensures
        r matches Some(y) ==> terrain.tile(x as int, y as int) == Some(TerrainType::Surface),
{
    let h = terrain.height as i32;
    let mut y: i32 = 0;
    while y < h
        invariant
            terrain.wf(),
            h == terrain.height,
            0 <= y <= h,
        decreases h - y,
    {
        if terrain.get(x, y) == Some(TerrainType::Surface) {
            return Some(y);
        }
        y = y + 1;
    }
    None
}

/// A surface tile for a new nest: random columns away from the borders are tried
/// first, keeping the minimum Manhattan distance to existing nests; failing that,
/// every twentieth column is scanned.
pub fn find_colony_spawn_position(terrain: &Terrain, existing: &Vec<(i32, i32)>, min_colony_distance: i32) -> (r: Option<
    (i32, i32),
>)
    requires
        terrain.wf(),
    ensures
        r matches Some(p) ==> terrain.tile(p.0 as int, p.1 as int) == Some(TerrainType::Surface),
{
    let w = terrain.width as i32;
    if w <= 20 {
        return None;
    }
    let mut attempt: usize = 0;
    while attempt < 100
        invariant
            terrain.wf(),
            w == terrain.width,
            w > 20,
        decreases 100 - attempt,
    {
        let x = random_i32(10, w - 11);
        match surface_tile_of(terrain, x) {
            Some(y) => {
                let mut too_close = false;
                let mut e: usize = 0;
                while e < existing.len()
                    invariant
                        0 <= e <= existing@.len(),
                    decreases existing@.len() - e,
                {
                    let (ex, ey) = existing[e];
                    if manhattan_distance(x, y, ex, ey) < min_colony_distance as i64 {
                        too_close = true;
                    }
                    e = e + 1;
                }
                if !too_close {
                    return Some((x, y));
                }
            },
            None => {},
        }
        attempt = attempt + 1;
    }
    let mut x: i32 = 10;
    while x < w - 10
        invariant
            terrain.wf(),
            w == terrain.width,
            w > 20,
            10 <= x,
        decreases w - x,
    {
        match surface_tile_of(terrain, x) {
            Some(y) => {
                return Some((x, y));
            },
            None => {},
        }
        if x > w - 30 {
            break;
        }
        x = x + 20;
    }
    None
}

/// Adds an agent of the given role and colony at (x, y), unless the store is full.
pub fn spawn_ant(store: &mut AgentStore, x: i32, y: i32, colony_id: u8, role: AntRole)
    ensures
        final(store)@ == old(store)@ || exists|id: u64|
            !old(store)@.contains_key(id) && #[trigger] final(store)@ == old(store)@.insert(id, Agent {
                x,
                y,
                colony_id,
                role,
                state: crate::agent::initial_state(role),
                age: None,
                fighter: None,
                carrying: None,
                drowning: None,
                dead: false,
            }),
        old(store)@.len() < u32::MAX - 1 ==> final(store)@ != old(store)@,
        forall|k: u64| #[trigger] old(store)@.contains_key(k) ==> final(store)@.contains_key(k) && final(store)@[k] == old(store)@[k],
        forall|k: u64| #[trigger] final(store)@.contains_key(k) && !old(store)@.contains_key(k) ==> final(store)@[k].colony_id == colony_id,
{
    let a = Agent::new(x, y, colony_id, role);
    let _ = store.spawn(a);
}

/// Founds up to `num_colonies` colonies (at most 256), colony `i` at index `i`,
/// each with a queen on a surface tile at its home and its first workers near it.
pub fn spawn_colonies(store: &mut AgentStore, terrain: &Terrain, config: &SimConfig) -> (r: Vec<ColonyState>)
    requires
        terrain.wf(),
    ensures
        r@.len() <= config.spawn.num_colonies,
        r@.len() <= 256,
        forall|i: int| 0 <= i < r@.len() ==> (#[trigger] r@[i]).id == i && terrain.tile(r@[i].home_x as int, r@[i].home_y as int)
            == Some(TerrainType::Surface) && r@[i].food_stored == config.colony.initial_food && r@[i].food_fraction == 0,
        old(store)@.dom().subset_of(final(store)@.dom()),
        forall|k: u64| #[trigger] old(store)@.contains_key(k) ==> final(store)@[k] == old(store)@[k],
        forall|k: u64| #[trigger] final(store)@.contains_key(k) && !old(store)@.contains_key(k) ==> (final(store)@[k].colony_id as int) < r@.len(),
{
    let limit: usize = if config.spawn.num_colonies < 256 {
        config.spawn.num_colonies
    } else {
        256
    };
    let mut colonies: Vec<ColonyState> = Vec::new();
    let mut positions: Vec<(i32, i32)> = Vec::new();
    let mut attempt: usize = 0;
    while attempt < limit
        invariant
            terrain.wf(),
            limit <= 256,
            limit <= config.spawn.num_colonies,
            colonies@.len() <= attempt <= limit,
            forall|i: int| 0 <= i < colonies@.len() ==> (#[trigger] colonies@[i]).id == i && terrain.tile(
                colonies@[i].home_x as int,
                colonies@[i].home_y as int,
            ) == Some(TerrainType::Surface) && colonies@[i].food_stored == config.colony.initial_food
                && colonies@[i].food_fraction == 0,
            old(store)@.dom().subset_of(store@.dom()),
            forall|k: u64| #[trigger] old(store)@.contains_key(k) ==> store@[k] == old(store)@[k],
            forall|k: u64| #[trigger] store@.contains_key(k) && !old(store)@.contains_key(k) ==> (store@[k].colony_id as int) < colonies@.len(),
        decreases limit - attempt,
    {
        match find_colony_spawn_position(terrain, &positions, config.spawn.min_colony_distance) {
            Some((x, y)) => {
                positions.push((x, y));
                let id = colonies.len() as u8;
                let ghost before_colony = store@;
                let colony = ColonyState::new(id, x, y, config.colony.initial_food);
                spawn_ant(store, x, y, id, AntRole::Queen);
                let mut i: usize = 0;
                while i < config.spawn.initial_workers && i < 1000
                    invariant
                        terrain.wf(),
                        old(store)@.dom().subset_of(store@.dom()),
                        id as int == colonies@.len(),
                        colonies@.len() < 256,
                        forall|k: u64| #[trigger] old(store)@.contains_key(k) ==> store@[k] == old(store)@[k],
                        forall|k: u64| #[trigger] store@.contains_key(k) && !old(store)@.contains_key(k) ==> (store@[k].colony_id as int) <= colonies@.len(),
                    decreases 1000 - i,
                {
                    let wx: i64 = x as i64 + (i % 5) as i64 - 2;
                    let wy: i64 = y as i64 + (i / 5) as i64;
                    if wx >= 0 && wy >= 0 && wx <= i32::MAX as i64 && wy <= i32::MAX as i64 && terrain.is_passable(
                        wx as i32,
                        wy as i32,
                    ) {
                        spawn_ant(store, wx as i32, wy as i32, id, AntRole::Worker);
                    } else {
                        place_near(store, terrain, x, y, id);
                    }
                    i = i + 1;
                }
                colonies.push(colony);
            },
            None => {},
        }
        attempt = attempt + 1;
    }
    colonies
}

/// Places a worker on a passable tile near (x, y), if one is found: for each of
/// the three rows from y down, the first passable column among the five around x.
fn place_near(store: &mut AgentStore, terrain: &Terrain, x: i32, y: i32, colony_id: u8)
    requires
        terrain.wf(),
    ensures
        old(store)@.dom().subset_of(final(store)@.dom()),
        forall|k: u64| #[trigger] old(store)@.contains_key(k) ==> final(store)@[k] == old(store)@[k],
        forall|k: u64| #[trigger] final(store)@.contains_key(k) && !old(store)@.contains_key(k) ==> final(store)@[k].colony_id == colony_id,
{
    let mut dy: i64 = 0;
    while dy < 3
        invariant
            terrain.wf(),
            0 <= dy <= 3,
            old(store)@.dom().subset_of(store@.dom()),
            forall|k: u64| #[trigger] old(store)@.contains_key(k) ==> store@[k] == old(store)@[k],
            forall|k: u64| #[trigger] store@.contains_key(k) && !old(store)@.contains_key(k) ==> store@[k].colony_id == colony_id,
        decreases 3 - dy,
    {
        let mut dx: i64 = -2;
        while dx <= 2
            invariant
                terrain.wf(),
                0 <= dy < 3,
                -2 <= dx <= 3,
                old(store)@.dom().subset_of(store@.dom()),
                forall|k: u64| #[trigger] old(store)@.contains_key(k) ==> store@[k] == old(store)@[k],
                forall|k: u64| #[trigger] store@.contains_key(k) && !old(store)@.contains_key(k) ==> store@[k].colony_id == colony_id,
            decreases 3 - dx,
        {
            let tx: i64 = x as i64 + dx;
            let ty: i64 = y as i64 + dy;
            if tx >= 0 && ty >= 0 && tx <= i32::MAX as i64 && ty <= i32::MAX as i64 && terrain.is_passable(
                tx as i32,
                ty as i32,
            ) {
                spawn_ant(store, tx as i32, ty as i32, colony_id, AntRole::Worker);
                break;
            }
            dx = dx + 1;
        }
        dy = dy + 1;
    }
}

} // verus!
