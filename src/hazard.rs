use vstd::prelude::*;

use crate::agent::Agent;
use crate::config::{HazardConfig, SimConfig};
use crate::random::random_u8;
use crate::terrain::{Terrain, TerrainType};
use crate::world::{lemma_apply_listed, lemma_listed_index, AgentStore};

verus! {

/// Offset of the `k`-th of the eight neighbours, row by row from the top left.
pub open spec fn ring_offset(k: int) -> (int, int) {
    if k == 0 {
        (-1, -1)
    } else if k == 1 {
        (0, -1)
    } else if k == 2 {
        (1, -1)
    } else if k == 3 {
        (-1, 0)
    } else if k == 4 {
        (1, 0)
    } else if k == 5 {
        (-1, 1)
    } else if k == 6 {
        (0, 1)
    } else {
        (1, 1)
    }
}

fn ring_offset_exec(k: usize) -> (r: (i32, i32))
    ensures
        (r.0 as int, r.1 as int) == ring_offset(k as int),
{
    match k {
        0 => (-1, -1),
        1 => (0, -1),
        2 => (1, -1),
        3 => (-1, 0),
        4 => (1, 0),
        5 => (-1, 1),
        6 => (0, 1),
        _ => (1, 1),
    }
}

/// Number of open tiles among the first `k` neighbours of (x, y).
pub open spec fn open_prefix(t: &Terrain, x: int, y: int, k: int) -> int
    decreases k,
{
    if k <= 0 {
        0
    } else {
        open_prefix(t, x, y, k - 1) + if t.is_open(x + ring_offset(k - 1).0, y + ring_offset(k - 1).1) {
            1int
        } else {
            0
        }
    }
}

/// Number of open tiles (air or tunnel) among the eight neighbours of (x, y).
pub open spec fn open_neighbours(t: &Terrain, x: int, y: int) -> int {
    open_prefix(t, x, y, 8)
}

/// A tunnel lies left, right, above or below (x, y).
pub open spec fn tunnel_supported(t: &Terrain, x: int, y: int) -> bool {
    t.tile(x - 1, y) == Some(TerrainType::Tunnel) || t.tile(x + 1, y) == Some(TerrainType::Tunnel)
        || t.tile(x, y - 1) == Some(TerrainType::Tunnel) || t.tile(x, y + 1) == Some(TerrainType::Tunnel)
}

/// Chance out of 256 that a tile with `open` open neighbours, less its stability
/// bonus, collapses: none up to two, rising with each more, at most from six on.
pub open spec fn collapse_table(open: int, bonus: int, cfg: HazardConfig) -> u8 {
    let n = if open > bonus {
        open - bonus
    } else {
        0
    };
    if n <= 2 {
        0
    } else if n == 3 {
        cfg.collapse_chance_3
    } else if n == 4 {
        cfg.collapse_chance_4
    } else if n == 5 {
        cfg.collapse_chance_5
    } else {
        cfg.collapse_chance_6plus
    }
}

/// Collapse chance of tile (x, y): only soil resting on open space, not next to a
/// tunnel, can fall; dense soil counts its stability bonus.
pub open spec fn tile_collapse_chance(t: &Terrain, x: int, y: int, cfg: HazardConfig) -> u8 {
    match t.tile(x, y) {
        Some(kind) => if (kind == TerrainType::Soil || kind == TerrainType::SoilDense) && !tunnel_supported(t, x, y)
            && t.is_open(x, y + 1) {
            collapse_table(
                open_neighbours(t, x, y),
                if kind == TerrainType::SoilDense {
                    cfg.dense_stability_bonus as int
                } else {
                    0
                },
                cfg,
            )
        } else {
            0
        },
        None => 0,
    }
}

fn is_open_offset(terrain: &Terrain, x: i32, y: i32, dx: i32, dy: i32) -> (r: bool)
    requires
        terrain.wf(),
    ensures
        r == terrain.is_open(x + dx, y + dy),
{
    let nx: i64 = x as i64 + dx as i64;
    let ny: i64 = y as i64 + dy as i64;
    if nx < 0 || ny < 0 || nx > i32::MAX as i64 || ny > i32::MAX as i64 {
        return false;
    }
    terrain.is_open_at(nx as i32, ny as i32)
}

fn tile_offset(terrain: &Terrain, x: i32, y: i32, dx: i32, dy: i32) -> (r: Option<TerrainType>)
    requires
        terrain.wf(),
    ensures
        r == terrain.tile(x + dx, y + dy),
{
    let nx: i64 = x as i64 + dx as i64;
    let ny: i64 = y as i64 + dy as i64;
    if nx < 0 || ny < 0 || nx > i32::MAX as i64 || ny > i32::MAX as i64 {
        return None;
    }
    terrain.get(nx as i32, ny as i32)
}

/// Counts the open tiles around (x, y).
pub fn count_open_neighbors(terrain: &Terrain, x: i32, y: i32) -> (r: u8)
    requires
        terrain.wf(),
    ensures
        r == open_neighbours(terrain, x as int, y as int),
{
    let mut count: u8 = 0;
    let mut k: usize = 0;
    while k < 8
        invariant
            terrain.wf(),
            0 <= k <= 8,
            count == open_prefix(terrain, x as int, y as int, k as int),
            count <= k,
        decreases 8 - k,
    {
        let (dx, dy) = ring_offset_exec(k);
        if is_open_offset(terrain, x, y, dx, dy) {
            count = count + 1;
        }
        k = k + 1;
    }
    count
}

/// Whether a tunnel lies beside, above or below (x, y).
pub fn is_tunnel_supported(terrain: &Terrain, x: i32, y: i32) -> (r: bool)
    requires
        terrain.wf(),
    ensures
        r == tunnel_supported(terrain, x as int, y as int),
{
    let left = tile_offset(terrain, x, y, -1, 0);
    let right = tile_offset(terrain, x, y, 1, 0);
    let up = tile_offset(terrain, x, y, 0, -1);
    let down = tile_offset(terrain, x, y, 0, 1);
    left == Some(TerrainType::Tunnel) || right == Some(TerrainType::Tunnel) || up == Some(TerrainType::Tunnel)
        || down == Some(TerrainType::Tunnel)
}

/// The collapse table.
pub fn collapse_chance(open: u8, bonus: u8, cfg: &HazardConfig) -> (r: u8)
    ensures
        r == collapse_table(open as int, bonus as int, *cfg),
{
    let n = if open > bonus {
        open - bonus
    } else {
        0
    };
    match n {
        0..=2 => 0,
        3 => cfg.collapse_chance_3,
        4 => cfg.collapse_chance_4,
        5 => cfg.collapse_chance_5,
        _ => cfg.collapse_chance_6plus,
    }
}

/// Collapse chance of the tile at (x, y).
pub fn tile_chance(terrain: &Terrain, x: i32, y: i32, cfg: &HazardConfig) -> (r: u8)
    requires
        terrain.wf(),
    ensures
        r == tile_collapse_chance(terrain, x as int, y as int, *cfg),
{
    match terrain.get(x, y) {
        Some(kind) => {
            if !(kind == TerrainType::Soil || kind == TerrainType::SoilDense) {
                return 0;
            }
            if is_tunnel_supported(terrain, x, y) {
                return 0;
            }
            if !is_open_offset(terrain, x, y, 0, 1) {
                return 0;
            }
            let open = count_open_neighbors(terrain, x, y);
            let bonus: u8 = if kind == TerrainType::SoilDense {
                cfg.dense_stability_bonus
            } else {
                0
            };
            collapse_chance(open, bonus, cfg)
        },
        None => 0,
    }
}

/// Soil with at most two open neighbours never collapses; soil with six or more
/// resting on open space, away from tunnels, has the highest configured chance.
pub proof fn lemma_collapse_table_ends(t: &Terrain, x: int, y: int, cfg: HazardConfig)
    requires
        t.tile(x, y) == Some(TerrainType::Soil),
    ensures
        open_neighbours(t, x, y) <= 2 ==> tile_collapse_chance(t, x, y, cfg) == 0,
        open_neighbours(t, x, y) >= 6 && !tunnel_supported(t, x, y) && t.is_open(x, y + 1)
            ==> tile_collapse_chance(t, x, y, cfg) == cfg.collapse_chance_6plus,
{
}

/// Row where soil falling from (x, y) comes to rest: the last air tile of the run
/// of air right below it, or y itself when none.
pub open spec fn landing(t: &Terrain, x: int, y: int, l: int) -> bool {
    &&& y <= l
    &&& forall|b: int| y < b <= l ==> #[trigger] t.tile(x, b) == Some(TerrainType::Air)
    &&& t.tile(x, l + 1) != Some(TerrainType::Air)
}

/// Row where soil falling from (x, y) comes to rest.
pub fn landing_row(terrain: &Terrain, x: i32, y: i32) -> (r: i32)
    requires
        terrain.wf(),
        0 <= y < terrain.height,
    ensures
        landing(terrain, x as int, y as int, r as int),
{
    let h = terrain.height as i32;
    let mut land_y: i32 = y + 1;
    while land_y < h
        invariant
            terrain.wf(),
            h == terrain.height,
            y < land_y <= h,
            forall|b: int| y < b < land_y ==> #[trigger] terrain.tile(x as int, b) == Some(TerrainType::Air),
        ensures
            y < land_y <= h,
            forall|b: int| y < b < land_y ==> #[trigger] terrain.tile(x as int, b) == Some(TerrainType::Air),
            terrain.tile(x as int, land_y as int) != Some(TerrainType::Air),
        decreases h - land_y,
    {
        if terrain.get(x, land_y) != Some(TerrainType::Air) {
            break;
        }
        land_y = land_y + 1;
    }
    land_y - 1
}

/// Marks dead every agent standing on (x, y).
pub fn kill_ants_at(store: &mut AgentStore, x: i32, y: i32)
    ensures
        final(store)@.dom() == old(store)@.dom(),
        forall|k: u64|
            old(store)@.contains_key(k) ==> #[trigger] final(store)@[k] == if old(store)@[k].x == x
                && old(store)@[k].y == y {
                old(store)@[k].marked_dead()
            } else {
                old(store)@[k]
            },
{
    let ids = store.ids();
    let mut updates: Vec<(u64, Agent)> = Vec::new();
    let mut i: usize = 0;
    while i < ids.len()
        invariant
            store@ == old(store)@,
            0 <= i <= ids@.len(),
            ids@.no_duplicates(),
            forall|j: int| 0 <= j < ids@.len() ==> store@.contains_key(#[trigger] ids@[j]),
            updates@.len() == i,
            forall|j: int| 0 <= j < i ==> (#[trigger] updates@[j]) == (ids@[j], if store@[ids@[j]].x == x
                && store@[ids@[j]].y == y {
                store@[ids@[j]].marked_dead()
            } else {
                store@[ids@[j]]
            }),
        decreases ids@.len() - i,
    {
        let id = ids[i];
        let a = store.get(id).unwrap();
        let na = if a.x == x && a.y == y {
            Agent { dead: true, ..a }
        } else {
            a
        };
        updates.push((id, na));
        i = i + 1;
    }
    store.apply(&updates);
    proof {
        let m = old(store)@;
        lemma_apply_listed(m, ids@, updates@);
        assert forall|k: u64| m.contains_key(k) implies #[trigger] store@[k] == if m[k].x == x && m[k].y == y {
            m[k].marked_dead()
        } else {
            m[k]
        } by {
            let j = lemma_listed_index(ids@, k);
            assert(updates@[j].0 == ids@[j]);
        }
    }
}

/// Tunnels, solid rock and the surface: tiles that a collapse never moves.
pub open spec fn fixed_kind(t: Option<TerrainType>) -> bool {
    t == Some(TerrainType::Tunnel) || t == Some(TerrainType::Solid) || t == Some(TerrainType::Surface)
}

/// Fixed tiles of `before` are unchanged in `after`, and no other tile became one.
pub open spec fn only_soil_moved(before: &Terrain, after: &Terrain) -> bool {
    forall|a: int, b: int|
        (fixed_kind(before.tile(a, b)) || fixed_kind(#[trigger] after.tile(a, b))) ==> after.tile(a, b) == before.tile(a, b)
}

/// Tiles that collapse among the first `n` of the grid in row-major order, each with
/// its own roll out of 256: those whose roll is below their collapse chance.
pub open spec fn collapse_selection(t: &Terrain, rolls: Seq<u8>, cfg: HazardConfig, n: int) -> Seq<(int, int)>
    decreases n,
{
    if n <= 0 {
        Seq::empty()
    } else {
        let prev = collapse_selection(t, rolls, cfg, n - 1);
        let x = (n - 1) % (t.width as int);
        let y = (n - 1) / (t.width as int);
        if rolls[n - 1] < tile_collapse_chance(t, x, y, cfg) {
            prev.push((x, y))
        } else {
            prev
        }
    }
}

/// Every selected tile had a positive collapse chance, and lies in the grid.
pub proof fn lemma_selected_can_collapse(t: &Terrain, rolls: Seq<u8>, cfg: HazardConfig, n: int, i: int)
    requires
        0 <= i < collapse_selection(t, rolls, cfg, n).len(),
    ensures
        tile_collapse_chance(t, collapse_selection(t, rolls, cfg, n)[i].0, collapse_selection(t, rolls, cfg, n)[i].1, cfg) > 0,
    decreases n,
{
    let prev = collapse_selection(t, rolls, cfg, n - 1);
    if i < prev.len() {
        lemma_selected_can_collapse(t, rolls, cfg, n - 1, i);
        assert(collapse_selection(t, rolls, cfg, n)[i] == prev[i]);
    }
}

/// The tiles that collapse for the given rolls, one per tile in row-major order.
pub fn select_collapses(terrain: &Terrain, rolls: &Vec<u8>, cfg: &HazardConfig) -> (r: Vec<(i32, i32)>)
    requires
        terrain.wf(),
        rolls@.len() == terrain.width * terrain.height,
    ensures
        r@.len() == collapse_selection(terrain, rolls@, *cfg, rolls@.len() as int).len(),
        forall|i: int| 0 <= i < r@.len() ==> ((#[trigger] r@[i]).0 as int, r@[i].1 as int) == collapse_selection(
            terrain,
            rolls@,
            *cfg,
            rolls@.len() as int,
        )[i],
        forall|i: int| 0 <= i < r@.len() ==> 0 <= (#[trigger] r@[i]).1 < terrain.height,
{
    let n = rolls.len();
    let w = terrain.width;
    let mut out: Vec<(i32, i32)> = Vec::new();
    let mut i: usize = 0;
    while i < n
        invariant
            terrain.wf(),
            n == rolls@.len(),
            n == terrain.width * terrain.height,
            w == terrain.width,
            0 <= i <= n,
            out@.len() == collapse_selection(terrain, rolls@, *cfg, i as int).len(),
            forall|j: int| 0 <= j < out@.len() ==> ((#[trigger] out@[j]).0 as int, out@[j].1 as int) == collapse_selection(
                terrain,
                rolls@,
                *cfg,
                i as int,
            )[j],
            forall|j: int| 0 <= j < out@.len() ==> 0 <= (#[trigger] out@[j]).1 < terrain.height,
        decreases n - i,
    {
        proof {
            assert(w > 0) by (nonlinear_arith)
                requires
                    i < n,
                    n == w * terrain.height,
                    w >= 0,
                    terrain.height >= 0,
            ;
            vstd::arithmetic::div_mod::lemma_fundamental_div_mod(i as int, w as int);
            vstd::arithmetic::div_mod::lemma_mod_pos_bound(i as int, w as int);
            vstd::arithmetic::div_mod::lemma_div_pos_is_pos(i as int, w as int);
            assert((i as int) / (w as int) < terrain.height) by (nonlinear_arith)
                requires
                    i < w * terrain.height,
                    i == w * (i / w) + i % w,
                    0 <= i % w,
                    w > 0,
            ;
        }
        let x = (i % w) as i32;
        let y = (i / w) as i32;
        let chance = tile_chance(terrain, x, y, cfg);
        if rolls[i] < chance {
            out.push((x, y));
        }
        i = i + 1;
    }
    out
}

/// `t1`, `m1` are `t0`, `m0` after the soil at (x, y) fell: when there is air below,
/// the tile becomes air, its material lands on the last air tile below and the
/// agents there are marked dead; otherwise nothing changes.
pub open spec fn collapsed_at(t0: &Terrain, m0: Map<u64, Agent>, t1: &Terrain, m1: Map<u64, Agent>, x: int, y: int) -> bool {
    exists|l: int|
        #[trigger] landing(t0, x, y, l) && (l > y ==> (forall|a: int, b: int|
            #![trigger t1.tile(a, b)]
            t1.tile(a, b) == if a == x && b == y {
                Some(TerrainType::Air)
            } else if a == x && b == l {
                Some(
                    match t0.tile(x, y) {
                        Some(k) => k,
                        None => TerrainType::Soil,
                    },
                )
            } else {
                t0.tile(a, b)
            }) && forall|k: u64|
            #![trigger m1[k]]
            m0.contains_key(k) ==> m1[k] == if m0[k].x == x && m0[k].y == l {
                m0[k].marked_dead()
            } else {
                m0[k]
            }) && (l <= y ==> *t1 == *t0 && m1 == m0)
}

/// Soil at (x, y) falling down its column when there is air below: the tile becomes
/// air, its material lands on the last air tile below, and the agents there are
/// marked dead. Nothing else changes.
pub fn collapse_tile(terrain: &mut Terrain, store: &mut AgentStore, x: i32, y: i32)
    requires
        old(terrain).wf(),
        0 <= y < old(terrain).height,
    ensures
        final(terrain).wf(),
        final(terrain).width == old(terrain).width,
        final(terrain).height == old(terrain).height,
        final(store)@.dom() == old(store)@.dom(),
        collapsed_at(&*old(terrain), old(store)@, &*final(terrain), final(store)@, x as int, y as int),
{
    let ghost t0 = *terrain;
    let land_y = landing_row(terrain, x, y);
    if land_y > y {
        let dirt = match terrain.get(x, y) {
            Some(t) => t,
            None => TerrainType::Soil,
        };
        proof {
            assert(t0.tile(x as int, y + 1) == Some(TerrainType::Air));
            assert(t0.tile(x as int, land_y as int) == Some(TerrainType::Air));
            assert(t0.in_bounds(x as int, land_y as int));
        }
        terrain.set(x, y, TerrainType::Air);
        let ghost t1 = *terrain;
        terrain.set(x, land_y, dirt);
        kill_ants_at(store, x, land_y);
        proof {
            assert forall|a: int, b: int|
                #![trigger terrain.tile(a, b)]
                terrain.tile(a, b) == if a == x && b == y {
                    Some(TerrainType::Air)
                } else if a == x && b == land_y {
                    Some(dirt)
                } else {
                    t0.tile(a, b)
                } by {
                assert(t1.tile(a, b) == if a == x && b == y && t0.in_bounds(a, b) {
                    Some(TerrainType::Air)
                } else {
                    t0.tile(a, b)
                });
            }
            assert(landing(&t0, x as int, y as int, land_y as int));
        }
    } else {
        proof {
            assert(landing(&t0, x as int, y as int, land_y as int));
        }
    }
}

/// Terrains `ts` and agent maps `ms` step from one to the next as each tile of
/// `sel` falls in turn.
pub open spec fn collapse_trace(sel: Seq<(int, int)>, ts: Seq<Terrain>, ms: Seq<Map<u64, Agent>>) -> bool {
    &&& ts.len() == sel.len() + 1
    &&& ms.len() == sel.len() + 1
    &&& forall|i: int|
        0 <= i < sel.len() ==> #[trigger] collapsed_at(&ts[i], ms[i], &ts[i + 1], ms[i + 1], sel[i].0, sel[i].1)
}

/// Structural collapse: every tile rolls against its collapse chance, judged on
/// the terrain before any tile falls (`select_collapses`); then each tile that gives
/// way falls as `collapse_tile` says. Only tiles that could collapse or that were air
/// change, and agents die only on such tiles.
pub fn cave_in_system(terrain: &mut Terrain, store: &mut AgentStore, config: &SimConfig)
    requires
        old(terrain).wf(),
    ensures
        final(terrain).wf(),
        final(terrain).width == old(terrain).width,
        final(terrain).height == old(terrain).height,
        only_soil_moved(&*old(terrain), &*final(terrain)),
        forall|a: int, b: int|
            #[trigger] final(terrain).tile(a, b) != old(terrain).tile(a, b) ==> tile_collapse_chance(
                &*old(terrain),
                a,
                b,
                config.hazard,
            ) > 0 || old(terrain).tile(a, b) == Some(TerrainType::Air),
        final(store)@.dom() == old(store)@.dom(),
        forall|k: u64|
            old(store)@.contains_key(k) ==> #[trigger] final(store)@[k] == old(store)@[k]
                || (final(store)@[k] == old(store)@[k].marked_dead() && (tile_collapse_chance(
                &*old(terrain),
                old(store)@[k].x as int,
                old(store)@[k].y as int,
                config.hazard,
            ) > 0 || old(terrain).tile(old(store)@[k].x as int, old(store)@[k].y as int) == Some(TerrainType::Air))),
        exists|rolls: Seq<u8>, ts: Seq<Terrain>, ms: Seq<Map<u64, Agent>>|
            rolls.len() == old(terrain).tiles@.len() && #[trigger] collapse_trace(
                collapse_selection(&*old(terrain), rolls, config.hazard, rolls.len() as int),
                ts,
                ms,
            ) && ts[0] == *old(terrain) && ms[0] == old(store)@ && ts.last() == *final(terrain) && ms.last() == final(store)@,
{
    let n = terrain.tiles.len();
    let mut rolls: Vec<u8> = Vec::new();
    let mut i: usize = 0;
    while i < n
        invariant
            0 <= i <= n,
            rolls@.len() == i,
        decreases n - i,
    {
        rolls.push(random_u8(0, 255));
        i = i + 1;
    }
    let collapses = select_collapses(terrain, &rolls, &config.hazard);
    let ghost start = *terrain;
    let ghost cfg = config.hazard;
    proof {
        assert forall|j: int| 0 <= j < collapses@.len() implies tile_collapse_chance(
            &start,
            (#[trigger] collapses@[j]).0 as int,
            collapses@[j].1 as int,
            cfg,
        ) > 0 by {
            lemma_selected_can_collapse(&start, rolls@, cfg, rolls@.len() as int, j);
        }
    }
    let ghost mut ts: Seq<Terrain> = seq![*terrain];
    let ghost mut ms: Seq<Map<u64, Agent>> = seq![store@];
    let mut c: usize = 0;
    while c < collapses.len()
        invariant
            rolls@.len() == start.tiles@.len(),
            collapses@.len() == collapse_selection(&start, rolls@, cfg, rolls@.len() as int).len(),
            forall|i: int|
                0 <= i < collapses@.len() ==> ((#[trigger] collapses@[i]).0 as int, collapses@[i].1 as int) == collapse_selection(
                    &start,
                    rolls@,
                    cfg,
                    rolls@.len() as int,
                )[i],
            c <= collapses@.len(),
            ts.len() == c + 1,
            ms.len() == c + 1,
            ts[0] == start,
            ms[0] == old(store)@,
            ts.last() == *terrain,
            ms.last() == store@,
            forall|i: int|
                0 <= i < c ==> #[trigger] collapsed_at(
                    &ts[i],
                    ms[i],
                    &ts[i + 1],
                    ms[i + 1],
                    collapses@[i].0 as int,
                    collapses@[i].1 as int,
                ),
            terrain.wf(),
            start.wf(),
            cfg == config.hazard,
            terrain.width == start.width,
            terrain.height == start.height,
            start == *old(terrain),
            only_soil_moved(&start, &*terrain),
            forall|j: int| 0 <= j < collapses@.len() ==> 0 <= (#[trigger] collapses@[j]).1 < start.height,
            forall|j: int| 0 <= j < collapses@.len() ==> tile_collapse_chance(
                &start,
                (#[trigger] collapses@[j]).0 as int,
                collapses@[j].1 as int,
                cfg,
            ) > 0,
            forall|a: int, b: int|
                #[trigger] terrain.tile(a, b) != start.tile(a, b) ==> tile_collapse_chance(&start, a, b, cfg) > 0
                    || start.tile(a, b) == Some(TerrainType::Air),
            store@.dom() == old(store)@.dom(),
            forall|k: u64|
                old(store)@.contains_key(k) ==> #[trigger] store@[k] == old(store)@[k] || (store@[k]
                    == old(store)@[k].marked_dead() && (tile_collapse_chance(
                    &start,
                    old(store)@[k].x as int,
                    old(store)@[k].y as int,
                    cfg,
                ) > 0 || start.tile(old(store)@[k].x as int, old(store)@[k].y as int) == Some(TerrainType::Air))),
        decreases collapses@.len() - c,
    {
        let (x, y) = collapses[c];
        let ghost t0 = *terrain;
        let ghost s0 = store@;
        proof {
            assert(tile_collapse_chance(&start, x as int, y as int, cfg) > 0);
            assert(start.tile(x as int, y as int) != Some(TerrainType::Air));
        }
        collapse_tile(terrain, store, x, y);
        proof {
            let ts0 = ts;
            let ms0 = ms;
            ts = ts.push(*terrain);
            ms = ms.push(store@);
            assert forall|i: int|
                0 <= i < c + 1 implies #[trigger] collapsed_at(
                    &ts[i],
                    ms[i],
                    &ts[i + 1],
                    ms[i + 1],
                    collapses@[i].0 as int,
                    collapses@[i].1 as int,
                ) by {
                if i < c {
                    assert(ts[i] == ts0[i] && ts[i + 1] == ts0[i + 1] && ms[i] == ms0[i] && ms[i + 1] == ms0[i + 1]);
                } else {
                    assert(ts[i] == t0 && ms[i] == s0);
                }
            }
        }
        proof {
            let l = choose|l: int|
                #[trigger] landing(&t0, x as int, y as int, l) && (l > y ==> (forall|a: int, b: int|
                    #![trigger terrain.tile(a, b)]
                    terrain.tile(a, b) == if a == x && b == y {
                        Some(TerrainType::Air)
                    } else if a == x && b == l {
                        Some(
                            match t0.tile(x as int, y as int) {
                                Some(k) => k,
                                None => TerrainType::Soil,
                            },
                        )
                    } else {
                        t0.tile(a, b)
                    }) && forall|k: u64|
                    #![trigger store@[k]]
                    s0.contains_key(k) ==> store@[k] == if s0[k].x == x && s0[k].y == l {
                        s0[k].marked_dead()
                    } else {
                        s0[k]
                    }) && (l <= y ==> *terrain == t0 && store@ == s0);
            if l > y {
                assert(t0.tile(x as int, l) == Some(TerrainType::Air));
                assert forall|a: int, b: int|
                    #[trigger] terrain.tile(a, b) != start.tile(a, b) implies tile_collapse_chance(&start, a, b, cfg) > 0
                        || start.tile(a, b) == Some(TerrainType::Air) by {
                    if t0.tile(a, b) == start.tile(a, b) {
                    }
                }
                assert(fixed_kind(start.tile(x as int, y as int)) == false) by {
                    if fixed_kind(start.tile(x as int, y as int)) {
                        assert(tile_collapse_chance(&start, x as int, y as int, cfg) == 0);
                    }
                }
                assert forall|a: int, b: int|
                    (fixed_kind(start.tile(a, b)) || fixed_kind(#[trigger] terrain.tile(a, b))) implies terrain.tile(a, b)
                        == start.tile(a, b) by {
                    if a == x && b == y {
                        assert(!fixed_kind(t0.tile(a, b)));
                    } else if a == x && b == l {
                        assert(!fixed_kind(t0.tile(x as int, y as int)));
                        assert(!fixed_kind(t0.tile(a, b)));
                    }
                }
                assert forall|k: u64|
                    old(store)@.contains_key(k) implies #[trigger] store@[k] == old(store)@[k] || (store@[k]
                        == old(store)@[k].marked_dead() && (tile_collapse_chance(
                        &start,
                        old(store)@[k].x as int,
                        old(store)@[k].y as int,
                        cfg,
                    ) > 0 || start.tile(old(store)@[k].x as int, old(store)@[k].y as int) == Some(TerrainType::Air))) by {
                    assert(s0.contains_key(k));
                    if s0[k].x == x && s0[k].y == l {
                        assert(t0.tile(s0[k].x as int, s0[k].y as int) == Some(TerrainType::Air));
                    }
                }
            }
        }
        c = c + 1;
    }
    proof {
        let sel = collapse_selection(&start, rolls@, cfg, rolls@.len() as int);
        assert forall|i: int| 0 <= i < sel.len() implies #[trigger] collapsed_at(&ts[i], ms[i], &ts[i + 1], ms[i + 1], sel[i].0, sel[i].1) by {
            assert((collapses@[i].0 as int, collapses@[i].1 as int) == sel[i]);
            assert(collapsed_at(&ts[i], ms[i], &ts[i + 1], ms[i + 1], collapses@[i].0 as int, collapses@[i].1 as int));
        }
        assert(collapse_trace(sel, ts, ms));
    }
}

/// Removes every agent marked dead.
pub fn cleanup_dead(store: &mut AgentStore)
    ensures
        forall|k: u64| #[trigger] final(store)@.contains_key(k) <==> old(store)@.contains_key(k) && !old(store)@[k].dead,
        forall|k: u64| #[trigger] final(store)@.contains_key(k) ==> final(store)@[k] == old(store)@[k],
{
    let ids = store.ids();
    let mut i: usize = 0;
    while i < ids.len()
        invariant
            0 <= i <= ids@.len(),
            ids@.no_duplicates(),
            forall|j: int| 0 <= j < ids@.len() ==> old(store)@.contains_key(#[trigger] ids@[j]),
            forall|k: u64| old(store)@.contains_key(k) ==> ids@.contains(k),
            forall|k: u64| #[trigger] store@.contains_key(k) ==> old(store)@.contains_key(k) && store@[k] == old(store)@[k],
            forall|j: int| 0 <= j < i ==> (#[trigger] store@.contains_key(ids@[j])) == !old(store)@[ids@[j]].dead,
            forall|j: int| i <= j < ids@.len() ==> #[trigger] store@.contains_key(ids@[j]),
        decreases ids@.len() - i,
    {
        let id = ids[i];
        proof {
            assert(store@.contains_key(ids@[i as int]));
        }
        let a = store.get(id).unwrap();
        if a.dead {
            let ghost before = store@;
            store.despawn(id);
            proof {
                assert forall|j: int| i < j < ids@.len() implies #[trigger] store@.contains_key(ids@[j]) by {
                    assert(before.contains_key(ids@[j]));
                    assert(ids@[j] != ids@[i as int]);
                }
                assert forall|j: int| 0 <= j < i implies (#[trigger] store@.contains_key(ids@[j])) == !old(store)@[ids@[j]].dead by {
                    assert(ids@[j] != ids@[i as int]);
                }
            }
        }
        i = i + 1;
    }
    proof {
        assert forall|k: u64| #[trigger] store@.contains_key(k) <==> old(store)@.contains_key(k) && !old(store)@[k].dead by {
            if old(store)@.contains_key(k) {
                let j = lemma_listed_index(ids@, k);
            }
        }
    }
}

} // verus!
