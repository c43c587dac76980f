use vstd::prelude::*;

use crate::agent::{Agent, AntRole, AntState};
use crate::config::{MovementConfig, SimConfig};
use crate::random::random_u8;
use crate::terrain::{Terrain, TerrainType};
use crate::world::{lemma_apply_listed, lemma_listed_index, AgentStore};

verus! {

/// A diggable tile below, beside or at a lower corner of (x, y).
pub open spec fn can_dig(t: &Terrain, x: int, y: int) -> bool {
    t.diggable(x, y + 1) || t.diggable(x - 1, y) || t.diggable(x + 1, y) || t.diggable(x - 1, y + 1) || t.diggable(
        x + 1,
        y + 1,
    )
}

/// Standing on something solid, or on the surface.
pub open spec fn on_ground(t: &Terrain, x: int, y: int) -> bool {
    !t.passable(x, y + 1) || t.tile(x, y) == Some(TerrainType::Surface)
}

/// Next state of a worker for a given roll out of 256. Wanderers on ground next
/// to diggable soil may start digging; diggers keep on while they can, with a
/// chance to head back that is higher in tunnels; returners wander again on the
/// surface and may be distracted into digging; idle workers may start wandering.
pub open spec fn worker_state(a: Agent, t: &Terrain, roll: u8, cfg: MovementConfig) -> AntState {
    let x = a.x as int;
    let y = a.y as int;
    let dig = can_dig(t, x, y);
    let ground = on_ground(t, x, y);
    match a.state {
        AntState::Wandering => if dig && ground && roll < cfg.start_dig_chance {
            AntState::Digging
        } else {
            AntState::Wandering
        },
        AntState::Digging => if dig {
            if roll < (if t.tile(x, y) == Some(TerrainType::Tunnel) {
                cfg.underground_return_chance
            } else {
                cfg.surface_return_chance
            }) {
                AntState::Returning
            } else {
                AntState::Digging
            }
        } else {
            AntState::Returning
        },
        AntState::Returning => if t.tile(x, y) == Some(TerrainType::Surface) {
            AntState::Wandering
        } else if dig && ground && roll < cfg.dig_distraction_chance {
            AntState::Digging
        } else {
            AntState::Returning
        },
        AntState::Idle => if roll < cfg.idle_to_wander_chance_dig {
            AntState::Wandering
        } else {
            AntState::Idle
        },
        other => other,
    }
}

/// `after` is `before` after the state decision for some roll.
pub open spec fn decided(before: Agent, after: Agent, t: &Terrain, cfg: MovementConfig) -> bool {
    exists|roll: u8| after == #[trigger] dig_decision(before, t, roll, cfg)
}

/// The state decision applied to an agent: only workers change.
pub open spec fn dig_decision(a: Agent, t: &Terrain, roll: u8, cfg: MovementConfig) -> Agent {
    if a.role == AntRole::Worker {
        a.with_state(worker_state(a, t, roll, cfg))
    } else {
        a
    }
}

fn diggable_offset(terrain: &Terrain, x: i32, y: i32, dx: i32, dy: i32) -> (r: bool)
    requires
        terrain.wf(),
    ensures
        r == terrain.diggable(x + dx, y + dy),
{
    let nx: i64 = x as i64 + dx as i64;
    let ny: i64 = y as i64 + dy as i64;
    if nx < 0 || ny < 0 || nx > i32::MAX as i64 || ny > i32::MAX as i64 {
        return false;
    }
    terrain.is_diggable(nx as i32, ny as i32)
}

fn passable_offset(terrain: &Terrain, x: i32, y: i32, dx: i32, dy: i32) -> (r: bool)
    requires
        terrain.wf(),
    ensures
        r == terrain.passable(x + dx, y + dy),
{
    let nx: i64 = x as i64 + dx as i64;
    let ny: i64 = y as i64 + dy as i64;
    if nx < 0 || ny < 0 || nx > i32::MAX as i64 || ny > i32::MAX as i64 {
        return false;
    }
    terrain.is_passable(nx as i32, ny as i32)
}

/// The worker's next state for a given roll.
pub fn decide_worker_state(a: &Agent, terrain: &Terrain, roll: u8, cfg: &MovementConfig) -> (r: AntState)
    requires
        terrain.wf(),
    ensures
        r == worker_state(*a, terrain, roll, *cfg),
{
    let x = a.x;
    let y = a.y;
    let dig = diggable_offset(terrain, x, y, 0, 1) || diggable_offset(terrain, x, y, -1, 0) || diggable_offset(
        terrain,
        x,
        y,
        1,
        0,
    ) || diggable_offset(terrain, x, y, -1, 1) || diggable_offset(terrain, x, y, 1, 1);
    let here = terrain.get(x, y);
    let ground = !passable_offset(terrain, x, y, 0, 1) || here == Some(TerrainType::Surface);
    match a.state {
        AntState::Wandering => if dig && ground && roll < cfg.start_dig_chance {
            AntState::Digging
        } else {
            AntState::Wandering
        },
        AntState::Digging => if dig {
            let chance = if here == Some(TerrainType::Tunnel) {
                cfg.underground_return_chance
            } else {
                cfg.surface_return_chance
            };
            if roll < chance {
                AntState::Returning
            } else {
                AntState::Digging
            }
        } else {
            AntState::Returning
        },
        AntState::Returning => if here == Some(TerrainType::Surface) {
            AntState::Wandering
        } else if dig && ground && roll < cfg.dig_distraction_chance {
            AntState::Digging
        } else {
            AntState::Returning
        },
        AntState::Idle => if roll < cfg.idle_to_wander_chance_dig {
            AntState::Wandering
        } else {
            AntState::Idle
        },
        other => other,
    }
}

/// Workers choose their next state, each on its own roll.
pub fn dig_ai_system(store: &mut AgentStore, terrain: &Terrain, config: &SimConfig)
    requires
        terrain.wf(),
    ensures
        final(store)@.dom() == old(store)@.dom(),
        forall|k: u64| old(store)@.contains_key(k) ==> decided(old(store)@[k], #[trigger] final(store)@[k], terrain, config.movement),
{
    let ids = store.ids();
    let mut updates: Vec<(u64, Agent)> = Vec::new();
    let mut i: usize = 0;
    while i < ids.len()
        invariant
            store@ == old(store)@,
            terrain.wf(),
            0 <= i <= ids@.len(),
            ids@.no_duplicates(),
            forall|j: int| 0 <= j < ids@.len() ==> store@.contains_key(#[trigger] ids@[j]),
            updates@.len() == i,
            forall|j: int| 0 <= j < i ==> (#[trigger] updates@[j]).0 == ids@[j] && decided(store@[ids@[j]], updates@[j].1, terrain, config.movement),
        decreases ids@.len() - i,
    {
        let id = ids[i];
        let a = store.get(id).unwrap();
        let roll = random_u8(0, 255);
        let na = if a.role == AntRole::Worker {
            Agent { state: decide_worker_state(&a, terrain, roll, &config.movement), ..a }
        } else {
            a
        };
        let ghost before = updates@;
        updates.push((id, na));
        proof {
            assert(na == dig_decision(a, terrain, roll, config.movement));
            assert forall|j: int| 0 <= j < i + 1 implies (#[trigger] updates@[j]).0 == ids@[j] && decided(store@[ids@[j]], updates@[j].1, terrain, config.movement) by {
                if j < i {
                    assert(updates@[j] == before[j]);
                } else {
                    assert(updates@[j].1 == dig_decision(store@[ids@[j]], terrain, roll, config.movement));
                }
            }
        }
        i = i + 1;
    }
    store.apply(&updates);
    proof {
        let m = old(store)@;
        lemma_apply_listed(m, ids@, updates@);
        assert forall|k: u64| m.contains_key(k) implies decided(m[k], #[trigger] store@[k], terrain, config.movement) by {
            let j = lemma_listed_index(ids@, k);
            assert(updates@[j].0 == ids@[j]);
        }
    }
}

/// Targets a digger tries, in order: below, lower corners, sides.
pub open spec fn dig_target(k: int) -> (int, int) {
    if k == 0 {
        (0, 1)
    } else if k == 1 {
        (-1, 1)
    } else if k == 2 {
        (1, 1)
    } else if k == 3 {
        (-1, 0)
    } else {
        (1, 0)
    }
}

fn dig_target_exec(k: usize) -> (r: (i32, i32))
    ensures
        (r.0 as int, r.1 as int) == dig_target(k as int),
{
    match k {
        0 => (0, 1),
        1 => (-1, 1),
        2 => (1, 1),
        3 => (-1, 0),
        _ => (1, 0),
    }
}

/// First dig target, from the `k`-th on, that is diggable.
pub open spec fn first_target(t: &Terrain, x: int, y: int, k: int) -> Option<(int, int)>
    decreases 5 - k,
{
    if k < 0 || k >= 5 {
        None
    } else if t.diggable(x + dig_target(k).0, y + dig_target(k).1) {
        Some((x + dig_target(k).0, y + dig_target(k).1))
    } else {
        first_target(t, x, y, k + 1)
    }
}

/// Tile (a, b) is the first dig target of some digging worker of `m`.
pub open spec fn dug_by_worker(m: Map<u64, Agent>, t: &Terrain, a: int, b: int) -> bool {
    exists|k: u64|
        #[trigger] m.contains_key(k) && m[k].role == AntRole::Worker && m[k].state == AntState::Digging && first_target(
            t,
            m[k].x as int,
            m[k].y as int,
            0,
        ) == Some((a, b))
}

/// The first diggable tile among the dig targets around (x, y).
pub fn dig_target_for(terrain: &Terrain, x: i32, y: i32) -> (r: Option<(i32, i32)>)
    requires
        terrain.wf(),
    ensures
        match r {
            Some(p) => first_target(terrain, x as int, y as int, 0) == Some((p.0 as int, p.1 as int)),
            None => first_target(terrain, x as int, y as int, 0) is None,
        },
{
    let mut k: usize = 0;
    while k < 5
        invariant
            terrain.wf(),
            0 <= k <= 5,
            first_target(terrain, x as int, y as int, 0) == first_target(terrain, x as int, y as int, k as int),
        decreases 5 - k,
    {
        let (dx, dy) = dig_target_exec(k);
        let tx: i64 = x as i64 + dx as i64;
        let ty: i64 = y as i64 + dy as i64;
        if tx >= 0 && ty >= 0 && tx <= i32::MAX as i64 && ty <= i32::MAX as i64 {
            if terrain.is_diggable(tx as i32, ty as i32) {
                return Some((tx as i32, ty as i32));
            }
        }
        k = k + 1;
    }
    None
}

/// Every tile is as before, or was diggable and is now a tunnel or dense soil.
pub open spec fn only_dug(before: &Terrain, after: &Terrain) -> bool {
    &&& after.wf()
    &&& after.width == before.width
    &&& after.height == before.height
    &&& forall|a: int, b: int|
        #[trigger] after.tile(a, b) == before.tile(a, b) || (before.diggable(a, b) && (after.tile(a, b) == Some(
            TerrainType::Tunnel,
        ) || after.tile(a, b) == Some(TerrainType::SoilDense)))
}

/// Offsets of the tiles hardened around a new tunnel: sides, above, upper corners.
pub open spec fn reinforce_offset(k: int) -> (int, int) {
    if k == 0 {
        (-1, 0)
    } else if k == 1 {
        (1, 0)
    } else if k == 2 {
        (0, -1)
    } else if k == 3 {
        (-1, -1)
    } else {
        (1, -1)
    }
}

fn reinforce_offset_exec(k: usize) -> (r: (i64, i64))
    ensures
        (r.0 as int, r.1 as int) == reinforce_offset(k as int),
{
    match k {
        0 => (-1, 0),
        1 => (1, 0),
        2 => (0, -1),
        3 => (-1, -1),
        _ => (1, -1),
    }
}

/// (a, b) is among the first `n` reinforcement tiles around (tx, ty) whose roll is
/// below the chance.
pub open spec fn reinforced(tx: int, ty: int, a: int, b: int, rolls: Seq<u8>, chance: u8, n: int) -> bool {
    exists|k: int|
        0 <= k < n && #[trigger] reinforce_offset(k) == (a - tx, b - ty) && rolls[k] < chance
}

/// Tile (a, b) after a dig at (tx, ty) with the given reinforcement rolls: the target,
/// when diggable, becomes a tunnel; each diggable reinforcement tile whose roll is
/// below the chance becomes dense soil; all else stays.
pub open spec fn after_dig(t: &Terrain, tx: int, ty: int, rolls: Seq<u8>, chance: u8, a: int, b: int, n: int) -> Option<TerrainType> {
    if a == tx && b == ty && t.diggable(a, b) {
        Some(TerrainType::Tunnel)
    } else if reinforced(tx, ty, a, b, rolls, chance, n) && t.diggable(a, b) {
        Some(TerrainType::SoilDense)
    } else {
        t.tile(a, b)
    }
}

/// One dig at (tx, ty), with one reinforcement roll out of 256 per hardened tile.
pub fn apply_dig(terrain: &mut Terrain, tx: i32, ty: i32, rolls: &Vec<u8>, cfg: &MovementConfig)
    requires
        old(terrain).wf(),
        rolls@.len() == 5,
    ensures
        final(terrain).wf(),
        final(terrain).width == old(terrain).width,
        final(terrain).height == old(terrain).height,
        forall|a: int, b: int|
            #[trigger] final(terrain).tile(a, b) == after_dig(
                &*old(terrain),
                tx as int,
                ty as int,
                rolls@,
                cfg.reinforce_chance,
                a,
                b,
                5,
            ),
{
    let ghost t0 = *terrain;
    if terrain.is_diggable(tx, ty) {
        terrain.set(tx, ty, TerrainType::Tunnel);
    }
    let mut k: usize = 0;
    while k < 5
        invariant
            terrain.wf(),
            terrain.width == t0.width,
            terrain.height == t0.height,
            t0.wf(),
            rolls@.len() == 5,
            0 <= k <= 5,
            forall|a: int, b: int|
                #[trigger] terrain.tile(a, b) == after_dig(&t0, tx as int, ty as int, rolls@, cfg.reinforce_chance, a, b, k as int),
        decreases 5 - k,
    {
        let (dx, dy) = reinforce_offset_exec(k);
        let nx: i64 = tx as i64 + dx;
        let ny: i64 = ty as i64 + dy;
        let ghost before = *terrain;
        if nx >= 0 && ny >= 0 && nx <= i32::MAX as i64 && ny <= i32::MAX as i64 {
            if terrain.is_diggable(nx as i32, ny as i32) && rolls[k] < cfg.reinforce_chance {
                terrain.set(nx as i32, ny as i32, TerrainType::SoilDense);
            }
        }
        proof {
            assert forall|a: int, b: int|
                #[trigger] terrain.tile(a, b) == after_dig(&t0, tx as int, ty as int, rolls@, cfg.reinforce_chance, a, b, k as int + 1) by {
                assert(before.tile(a, b) == after_dig(&t0, tx as int, ty as int, rolls@, cfg.reinforce_chance, a, b, k as int));
                if a == nx && b == ny {
                    assert(reinforce_offset(k as int) == (a - tx, b - ty));
                    if reinforced(tx as int, ty as int, a, b, rolls@, cfg.reinforce_chance, k as int) {
                        let k2 = choose|k2: int| 0 <= k2 < k && #[trigger] reinforce_offset(k2) == (a - tx, b - ty) && rolls@[k2] < cfg.reinforce_chance;
                        assert(false);
                    }
                    if rolls@[k as int] < cfg.reinforce_chance {
                        assert(reinforced(tx as int, ty as int, a, b, rolls@, cfg.reinforce_chance, k as int + 1));
                    }
                } else {
                    if reinforced(tx as int, ty as int, a, b, rolls@, cfg.reinforce_chance, k as int + 1) {
                        let k2 = choose|k2: int| 0 <= k2 < k + 1 && #[trigger] reinforce_offset(k2) == (a - tx, b - ty) && rolls@[k2] < cfg.reinforce_chance;
                        if k2 == k {
                            assert(!t0.in_bounds(a, b));
                        } else {
                            assert(reinforced(tx as int, ty as int, a, b, rolls@, cfg.reinforce_chance, k as int));
                        }
                    }
                }
            }
        }
        k = k + 1;
    }
}

/// Dig targets for the first `n` agents, each with its activation roll: a digging
/// worker whose roll is below the chance digs its first diggable target.
pub open spec fn dig_selection(agents: Seq<Agent>, t: &Terrain, rolls: Seq<u8>, chance: u8, n: int) -> Seq<(int, int)>
    decreases n,
{
    if n <= 0 {
        Seq::empty()
    } else {
        let prev = dig_selection(agents, t, rolls, chance, n - 1);
        let a = agents[n - 1];
        if a.role == AntRole::Worker && a.state == AntState::Digging && rolls[n - 1] < chance && first_target(
            t,
            a.x as int,
            a.y as int,
            0,
        ) is Some {
            prev.push(first_target(t, a.x as int, a.y as int, 0).unwrap())
        } else {
            prev
        }
    }
}

/// Each selected target is the first target of some digging worker.
pub proof fn lemma_selection_from_workers(agents: Seq<Agent>, t: &Terrain, rolls: Seq<u8>, chance: u8, n: int, i: int)
    requires
        0 <= n <= agents.len(),
        0 <= i < dig_selection(agents, t, rolls, chance, n).len(),
    ensures
        exists|j: int|
            0 <= j < n && (#[trigger] agents[j]).role == AntRole::Worker && agents[j].state == AntState::Digging
                && first_target(t, agents[j].x as int, agents[j].y as int, 0) == Some(
                dig_selection(agents, t, rolls, chance, n)[i],
            ),
    decreases n,
{
    let prev = dig_selection(agents, t, rolls, chance, n - 1);
    if i < prev.len() {
        lemma_selection_from_workers(agents, t, rolls, chance, n - 1, i);
        let j = choose|j: int|
            0 <= j < n - 1 && (#[trigger] agents[j]).role == AntRole::Worker && agents[j].state == AntState::Digging
                && first_target(t, agents[j].x as int, agents[j].y as int, 0) == Some(prev[i]);
        assert(dig_selection(agents, t, rolls, chance, n)[i] == prev[i]);
    } else {
        assert(agents[n - 1].role == AntRole::Worker);
    }
}

/// The dig targets chosen with the given activation rolls, one roll per agent.
pub fn select_digs(agents: &Vec<Agent>, terrain: &Terrain, rolls: &Vec<u8>, cfg: &MovementConfig) -> (r: Vec<(i32, i32)>)
    requires
        terrain.wf(),
        rolls@.len() == agents@.len(),
    ensures
        r@.len() == dig_selection(agents@, terrain, rolls@, cfg.dig_chance, agents@.len() as int).len(),
        forall|i: int| 0 <= i < r@.len() ==> ((#[trigger] r@[i]).0 as int, r@[i].1 as int) == dig_selection(
            agents@,
            terrain,
            rolls@,
            cfg.dig_chance,
            agents@.len() as int,
        )[i],
{
    let mut digs: Vec<(i32, i32)> = Vec::new();
    let mut i: usize = 0;
    while i < agents.len()
        invariant
            terrain.wf(),
            rolls@.len() == agents@.len(),
            0 <= i <= agents@.len(),
            digs@.len() == dig_selection(agents@, terrain, rolls@, cfg.dig_chance, i as int).len(),
            forall|j: int| 0 <= j < digs@.len() ==> ((#[trigger] digs@[j]).0 as int, digs@[j].1 as int) == dig_selection(
                agents@,
                terrain,
                rolls@,
                cfg.dig_chance,
                i as int,
            )[j],
        decreases agents@.len() - i,
    {
        let a = agents[i];
        if a.role == AntRole::Worker && a.state == AntState::Digging && rolls[i] < cfg.dig_chance {
            match dig_target_for(terrain, a.x, a.y) {
                Some(p) => {
                    digs.push(p);
                },
                None => {},
            }
        }
        i = i + 1;
    }
    digs
}

/// `t1` is `t0` after a dig at (tx, ty) with the given reinforcement rolls.
pub open spec fn dug_at(t0: &Terrain, t1: &Terrain, tx: int, ty: int, rolls: Seq<u8>, chance: u8) -> bool {
    &&& rolls.len() == 5
    &&& forall|a: int, b: int| #[trigger] t1.tile(a, b) == after_dig(t0, tx, ty, rolls, chance, a, b, 5)
}

/// Terrains `ts` step from one to the next as each target of `sel` is dug in turn,
/// with the reinforcement rolls of `hs`.
pub open spec fn dig_trace(sel: Seq<(int, int)>, hs: Seq<Seq<u8>>, ts: Seq<Terrain>, chance: u8) -> bool {
    &&& ts.len() == sel.len() + 1
    &&& hs.len() == sel.len()
    &&& forall|i: int| 0 <= i < sel.len() ==> #[trigger] dug_at(&ts[i], &ts[i + 1], sel[i].0, sel[i].1, hs[i], chance)
}

/// The dig of a tick over a listing `ids` of the agents of `m`, with activation
/// rolls `rolls` and reinforcement rolls `hs`, through terrains `ts` from `t0` to `t`.
pub open spec fn dig_outcome(
    m: Map<u64, Agent>,
    t0: &Terrain,
    t: &Terrain,
    cfg: MovementConfig,
    ids: Seq<u64>,
    rolls: Seq<u8>,
    hs: Seq<Seq<u8>>,
    ts: Seq<Terrain>,
) -> bool {
    &&& ids.no_duplicates()
    &&& ids.to_set() == m.dom()
    &&& rolls.len() == ids.len()
    &&& dig_trace(
        dig_selection(ids.map_values(|k: u64| m[k]), t0, rolls, cfg.dig_chance, ids.len() as int),
        hs,
        ts,
        cfg.reinforce_chance,
    )
    &&& ts[0] == *t0
    &&& ts.last() == *t
}

/// Digging for one tick: each digging worker, on a roll below the dig chance, picks
/// its first diggable target on the terrain as it was; then each target becomes a
/// tunnel and its neighbours may be hardened, as `apply_dig` says, on fresh rolls.
pub fn dig_system(store: &AgentStore, terrain: &mut Terrain, config: &SimConfig)
    requires
        old(terrain).wf(),
    ensures
        only_dug(&*old(terrain), &*final(terrain)),
        forall|a: int, b: int|
            #[trigger] final(terrain).tile(a, b) == Some(TerrainType::Tunnel) && old(terrain).tile(a, b) != Some(
                TerrainType::Tunnel,
            ) ==> dug_by_worker(store@, &*old(terrain), a, b),
        exists|ids: Seq<u64>, rolls: Seq<u8>, hs: Seq<Seq<u8>>, ts: Seq<Terrain>|
            #[trigger] dig_outcome(store@, &*old(terrain), &*final(terrain), config.movement, ids, rolls, hs, ts),
{
    let ids = store.ids();
    let mut agents: Vec<Agent> = Vec::new();
    let mut rolls: Vec<u8> = Vec::new();
    let mut i: usize = 0;
    while i < ids.len()
        invariant
            0 <= i <= ids@.len(),
            forall|j: int| 0 <= j < ids@.len() ==> store@.contains_key(#[trigger] ids@[j]),
            agents@.len() == i,
            rolls@.len() == i,
            forall|j: int| 0 <= j < i ==> #[trigger] agents@[j] == store@[ids@[j]],
        decreases ids@.len() - i,
    {
        agents.push(store.get(ids[i]).unwrap());
        rolls.push(random_u8(0, 255));
        i = i + 1;
    }
    let digs = select_digs(&agents, terrain, &rolls, &config.movement);
    let ghost start = *terrain;
    let ghost sel = dig_selection(agents@, &start, rolls@, config.movement.dig_chance, agents@.len() as int);
    let ghost mut ts: Seq<Terrain> = seq![start];
    let ghost mut hs: Seq<Seq<u8>> = Seq::empty();
    proof {
        assert(agents@ =~= ids@.map_values(|k: u64| store@[k]));
        assert forall|j: int| 0 <= j < digs@.len() implies dug_by_worker(store@, &start, (#[trigger] digs@[j]).0 as int, digs@[j].1 as int) by {
            lemma_selection_from_workers(agents@, &start, rolls@, config.movement.dig_chance, agents@.len() as int, j);
            let q = choose|q: int|
                0 <= q < agents@.len() && (#[trigger] agents@[q]).role == AntRole::Worker && agents@[q].state == AntState::Digging
                    && first_target(&start, agents@[q].x as int, agents@[q].y as int, 0) == Some(
                    dig_selection(agents@, &start, rolls@, config.movement.dig_chance, agents@.len() as int)[j],
                );
            assert(store@.contains_key(ids@[q]));
        }
    }
    let mut d: usize = 0;
    while d < digs.len()
        invariant
            0 <= d <= digs@.len(),
            terrain.wf(),
            start == *old(terrain),
            only_dug(&start, &*terrain),
            forall|j: int| 0 <= j < digs@.len() ==> dug_by_worker(store@, &start, (#[trigger] digs@[j]).0 as int, digs@[j].1 as int),
            forall|a: int, b: int|
                #[trigger] terrain.tile(a, b) == Some(TerrainType::Tunnel) && start.tile(a, b) != Some(TerrainType::Tunnel)
                    ==> dug_by_worker(store@, &start, a, b),
            digs@.len() == sel.len(),
            forall|j: int| 0 <= j < digs@.len() ==> ((#[trigger] digs@[j]).0 as int, digs@[j].1 as int) == sel[j],
            ts.len() == d + 1,
            hs.len() == d,
            ts[0] == start,
            ts.last() == *terrain,
            forall|j: int|
                0 <= j < d ==> #[trigger] dug_at(&ts[j], &ts[j + 1], sel[j].0, sel[j].1, hs[j], config.movement.reinforce_chance),
        decreases digs@.len() - d,
    {
        let (x, y) = digs[d];
        let mut hard: Vec<u8> = Vec::new();
        let mut k: usize = 0;
        while k < 5
            invariant
                0 <= k <= 5,
                hard@.len() == k,
            decreases 5 - k,
        {
            hard.push(random_u8(0, 255));
            k = k + 1;
        }
        let ghost t0 = *terrain;
        apply_dig(terrain, x, y, &hard, &config.movement);
        proof {
            let ts0 = ts;
            let hs0 = hs;
            ts = ts.push(*terrain);
            hs = hs.push(hard@);
            assert((x as int, y as int) == sel[d as int]);
            assert forall|j: int|
                0 <= j < d + 1 implies #[trigger] dug_at(&ts[j], &ts[j + 1], sel[j].0, sel[j].1, hs[j], config.movement.reinforce_chance) by {
                if j < d {
                    assert(ts[j] == ts0[j] && ts[j + 1] == ts0[j + 1] && hs[j] == hs0[j]);
                } else {
                    assert(ts[j] == t0 && hs[j] == hard@);
                }
            }
        }
        proof {
            assert(dug_by_worker(store@, &start, digs@[d as int].0 as int, digs@[d as int].1 as int));
            assert forall|a: int, b: int|
                #[trigger] terrain.tile(a, b) == start.tile(a, b) || (start.diggable(a, b) && (terrain.tile(a, b) == Some(
                    TerrainType::Tunnel,
                ) || terrain.tile(a, b) == Some(TerrainType::SoilDense))) by {
                assert(t0.tile(a, b) == start.tile(a, b) || (start.diggable(a, b) && (t0.tile(a, b) == Some(
                    TerrainType::Tunnel,
                ) || t0.tile(a, b) == Some(TerrainType::SoilDense))));
            }
            assert forall|a: int, b: int|
                #[trigger] terrain.tile(a, b) == Some(TerrainType::Tunnel) && start.tile(a, b) != Some(TerrainType::Tunnel)
                    implies dug_by_worker(store@, &start, a, b) by {
                assert(t0.tile(a, b) == start.tile(a, b) || (start.diggable(a, b) && (t0.tile(a, b) == Some(
                    TerrainType::Tunnel,
                ) || t0.tile(a, b) == Some(TerrainType::SoilDense))));
            }
        }
        d = d + 1;
    }
    proof {
        assert(dig_trace(sel, hs, ts, config.movement.reinforce_chance));
        assert(agents@ == ids@.map_values(|k: u64| store@[k]));
        assert(dig_outcome(store@, &start, &*terrain, config.movement, ids@, rolls@, hs, ts));
    }
}

} // verus!
