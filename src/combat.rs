use vstd::prelude::*;

use crate::agent::{Agent, AntRole, AntState, Fighter};
use crate::config::{CombatConfig, SimConfig};
use crate::pheromone::{neighbour_offset, neighbour_offset_exec, PheromoneGrid, PheromoneType, MAX_PHEROMONE};
use crate::random::random_u8;
use crate::spatial::{lemma_near_buckets, SpatialEntry, SpatialGrid};
use crate::world::{lemma_apply_listed, lemma_listed_index, AgentStore};

verus! {

/// An agent able to fight, as gathered at the start of a combat round.
#[derive(Clone, Copy, Debug)]
pub struct Combatant {
    pub id: u64,
    pub x: i32,
    pub y: i32,
    pub colony: u8,
    pub role: AntRole,
    pub strength: u8,
}

pub open spec fn entry_of(c: Combatant) -> SpatialEntry {
    (c.id, c.x, c.y, c.colony)
}

/// Two combatants of different colonies within one tile of each other, diagonals included.
pub open spec fn hostile_neighbours(a: Combatant, b: Combatant) -> bool {
    &&& a.colony != b.colony
    &&& -1 <= a.x - b.x <= 1
    &&& -1 <= a.y - b.y <= 1
}

/// Pairs (i, j) of indices, i < j, each naming two hostile neighbours, none twice.
pub open spec fn sound_pairs(cs: Seq<Combatant>, pairs: Seq<(usize, usize)>) -> bool {
    &&& pairs.no_duplicates()
    &&& forall|k: int|
        0 <= k < pairs.len() ==> (#[trigger] pairs[k]).0 < pairs[k].1 < cs.len() && hostile_neighbours(
            cs[pairs[k].0 as int],
            cs[pairs[k].1 as int],
        )
}

/// Every two hostile neighbours that the index holds are paired.
pub open spec fn complete_pairs(cs: Seq<Combatant>, grid: &SpatialGrid, pairs: Seq<(usize, usize)>) -> bool {
    forall|i: int, j: int|
        0 <= i < j < cs.len() && hostile_neighbours(cs[i], cs[j]) && grid.holds(entry_of(cs[i])) && grid.holds(
            entry_of(cs[j]),
        ) ==> #[trigger] pairs.contains((i as usize, j as usize))
}

/// If `e` is the entry of a later hostile neighbour of combatant i, that pair is listed.
pub open spec fn entry_paired(cs: Seq<Combatant>, i: int, e: SpatialEntry, pairs: Seq<(usize, usize)>) -> bool {
    forall|j: int|
        i < j < cs.len() && hostile_neighbours(cs[i], cs[j]) && e == entry_of(cs[j]) ==> #[trigger] pairs.contains(
            (i as usize, j as usize),
        )
}

/// Number of times the unordered pair {i, j} occurs.
pub open spec fn pair_count(pairs: Seq<(usize, usize)>, i: int, j: int) -> int
    decreases pairs.len(),
{
    if pairs.len() == 0 {
        0
    } else {
        pair_count(pairs.drop_last(), i, j) + if (pairs.last().0 == i && pairs.last().1 == j) || (pairs.last().0 == j
            && pairs.last().1 == i) {
            1int
        } else {
            0
        }
    }
}

/// Index of the combatant with the given handle.
fn find_combatant(cs: &Vec<Combatant>, id: u64) -> (r: Option<usize>)
    ensures
        match r {
            Some(j) => j < cs@.len() && cs@[j as int].id == id,
            None => forall|j: int| 0 <= j < cs@.len() ==> (#[trigger] cs@[j]).id != id,
        },
{
    let mut j: usize = 0;
    while j < cs.len()
        invariant
            0 <= j <= cs@.len(),
            forall|l: int| 0 <= l < j ==> (#[trigger] cs@[l]).id != id,
        decreases cs@.len() - j,
    {
        if cs[j].id == id {
            return Some(j);
        }
        j = j + 1;
    }
    None
}

fn has_pair(pairs: &Vec<(usize, usize)>, p: (usize, usize)) -> (r: bool)
    ensures
        r == pairs@.contains(p),
{
    let mut k: usize = 0;
    while k < pairs.len()
        invariant
            0 <= k <= pairs@.len(),
            forall|l: int| 0 <= l < k ==> pairs@[l] != p,
        decreases pairs@.len() - k,
    {
        if pairs[k].0 == p.0 && pairs[k].1 == p.1 {
            return true;
        }
        k = k + 1;
    }
    false
}

/// The fights of one round: each pair of hostile neighbours found through the
/// index, once, with the lower index first.
pub fn combat_pairs(combatants: &Vec<Combatant>, grid: &SpatialGrid) -> (pairs: Vec<(usize, usize)>)
    requires
        grid.wf(),
        forall|a: int, b: int|
            0 <= a < b < combatants@.len() ==> (#[trigger] combatants@[a]).id != (#[trigger] combatants@[b]).id,
    ensures
        sound_pairs(combatants@, pairs@),
        complete_pairs(combatants@, grid, pairs@),
{
    let ghost cs = combatants@;
    let n = combatants.len();
    let mut pairs: Vec<(usize, usize)> = Vec::new();
    let mut i: usize = 0;
    while i < n
        invariant
            grid.wf(),
            cs == combatants@,
            n == cs.len(),
            0 <= i <= n,
            forall|a: int, b: int| 0 <= a < b < cs.len() ==> (#[trigger] cs[a]).id != (#[trigger] cs[b]).id,
            sound_pairs(cs, pairs@),
            forall|a: int, j: int|
                0 <= a < i && a < j < cs.len() && hostile_neighbours(cs[a], cs[j]) && grid.holds(entry_of(cs[a]))
                    && grid.holds(entry_of(cs[j])) ==> #[trigger] pairs@.contains((a as usize, j as usize)),
        decreases n - i,
    {
        let a = combatants[i];
        let near = grid.query_nearby(a.x, a.y);
        let mut q: usize = 0;
        while q < near.len()
            invariant
                grid.wf(),
                cs == combatants@,
                n == cs.len(),
                0 <= i < n,
                a == cs[i as int],
                0 <= q <= near@.len(),
                forall|a: int, b: int| 0 <= a < b < cs.len() ==> (#[trigger] cs[a]).id != (#[trigger] cs[b]).id,
                sound_pairs(cs, pairs@),
                forall|a: int, j: int|
                    0 <= a < i && a < j < cs.len() && hostile_neighbours(cs[a], cs[j]) && grid.holds(
                        entry_of(cs[a]),
                    ) && grid.holds(entry_of(cs[j])) ==> #[trigger] pairs@.contains((a as usize, j as usize)),
                forall|j: int|
                    i < j < cs.len() && hostile_neighbours(cs[i as int], cs[j]) && near@.take(q as int).contains(
                        entry_of(cs[j]),
                    ) ==> #[trigger] pairs@.contains((i, j as usize)),
            decreases near@.len() - q,
        {
            let e = near[q];
            let ghost old_pairs = pairs@;
            if e.3 != a.colony {
                match find_combatant(combatants, e.0) {
                    Some(j) => {
                        let b = combatants[j];
                        let dx: i64 = a.x as i64 - b.x as i64;
                        let dy: i64 = a.y as i64 - b.y as i64;
                        if b.colony != a.colony && -1 <= dx && dx <= 1 && -1 <= dy && dy <= 1 {
                            let p = if i < j {
                                (i, j)
                            } else {
                                (j, i)
                            };
                            if !has_pair(&pairs, p) {
                                pairs.push(p);
                                proof {
                                    assert forall|k: int, l: int| 0 <= k < l < pairs@.len() implies pairs@[k] != pairs@[l] by {
                                        if l == pairs@.len() - 1 {
                                            assert(old_pairs[k] == pairs@[k]);
                                        } else {
                                            assert(old_pairs[k] == pairs@[k] && old_pairs[l] == pairs@[l]);
                                        }
                                    }
                                    assert forall|k: int| 0 <= k < pairs@.len() implies (#[trigger] pairs@[k]).0 < pairs@[k].1 < cs.len()
                                        && hostile_neighbours(cs[pairs@[k].0 as int], cs[pairs@[k].1 as int]) by {
                                        if k < old_pairs.len() {
                                            assert(old_pairs[k] == pairs@[k]);
                                        }
                                    }
                                    assert(pairs@[pairs@.len() - 1] == p);
                                }
                            }
                            proof {
                                assert(pairs@.contains(p));
                                assert forall|j2: int|
                                    i < j2 < cs.len() && hostile_neighbours(cs[i as int], cs[j2]) && e == entry_of(cs[j2])
                                    implies #[trigger] pairs@.contains((i, j2 as usize)) by {
                                    if j2 != j {
                                        if j2 < j {
                                            assert(cs[j2].id != cs[j as int].id);
                                        } else {
                                            assert(cs[j as int].id != cs[j2].id);
                                        }
                                    }
                                }
                            }
                        } else {
                            proof {
                                assert forall|j2: int|
                                    i < j2 < cs.len() && hostile_neighbours(cs[i as int], cs[j2]) && e == entry_of(cs[j2])
                                    implies #[trigger] pairs@.contains((i, j2 as usize)) by {
                                    if j2 != j {
                                        if j2 < j {
                                            assert(cs[j2].id != cs[j as int].id);
                                        } else {
                                            assert(cs[j as int].id != cs[j2].id);
                                        }
                                    }
                                }
                            }
                        }
                    },
                    None => {
                        proof {
                            assert forall|j2: int|
                                i < j2 < cs.len() && hostile_neighbours(cs[i as int], cs[j2]) && e == entry_of(cs[j2])
                                implies #[trigger] pairs@.contains((i, j2 as usize)) by {
                                assert(cs[j2].id != e.0);
                            }
                        }
                    },
                }
            }
            proof {
                assert(entry_paired(cs, i as int, e, pairs@));
            }
            proof {
                assert forall|a2: int, j2: int|
                    0 <= a2 < i && a2 < j2 < cs.len() && hostile_neighbours(cs[a2], cs[j2]) && grid.holds(entry_of(cs[a2]))
                        && grid.holds(entry_of(cs[j2])) implies #[trigger] pairs@.contains((a2 as usize, j2 as usize)) by {
                    assert(old_pairs.contains((a2 as usize, j2 as usize)));
                    let k = choose|k: int| 0 <= k < old_pairs.len() && old_pairs[k] == (a2 as usize, j2 as usize);
                    assert(pairs@[k] == old_pairs[k]);
                }
                assert forall|j2: int|
                    i < j2 < cs.len() && hostile_neighbours(cs[i as int], cs[j2]) && near@.take(q as int + 1).contains(
                        entry_of(cs[j2]),
                    ) implies #[trigger] pairs@.contains((i, j2 as usize)) by {
                    let t = choose|t: int| 0 <= t < q + 1 && #[trigger] near@.take(q as int + 1)[t] == entry_of(cs[j2]);
                    if t < q {
                        assert(near@.take(q as int)[t] == entry_of(cs[j2]));
                        assert(old_pairs.contains((i, j2 as usize)));
                        let k = choose|k: int| 0 <= k < old_pairs.len() && old_pairs[k] == (i, j2 as usize);
                        assert(pairs@[k] == old_pairs[k]);
                    } else {
                        assert(e == entry_of(cs[j2]));
                        assert(entry_paired(cs, i as int, e, pairs@));
                    }
                }
            }
            q = q + 1;
        }
        proof {
            assert(near@.take(near@.len() as int) =~= near@);
            assert forall|a2: int, j2: int|
                0 <= a2 < i + 1 && a2 < j2 < cs.len() && hostile_neighbours(cs[a2], cs[j2]) && grid.holds(entry_of(cs[a2]))
                    && grid.holds(entry_of(cs[j2])) implies #[trigger] pairs@.contains((a2 as usize, j2 as usize)) by {
                if a2 == i {
                    lemma_near_buckets(cs[a2].x as int, cs[j2].x as int, grid.cell_size as int);
                    lemma_near_buckets(cs[a2].y as int, cs[j2].y as int, grid.cell_size as int);
                    assert(near@.contains(entry_of(cs[j2])));
                }
            }
        }
        i = i + 1;
    }
    pairs
}

/// Each two hostile neighbours that the index holds fight exactly once per round:
/// the unordered pair occurs once among the pairs that `combat_pairs` returns.
pub proof fn lemma_one_exchange_per_pair(
    cs: Seq<Combatant>,
    grid: &SpatialGrid,
    pairs: Seq<(usize, usize)>,
    i: usize,
    j: usize,
)
    requires
        sound_pairs(cs, pairs),
        complete_pairs(cs, grid, pairs),
        i < j < cs.len(),
        hostile_neighbours(cs[i as int], cs[j as int]),
        grid.holds(entry_of(cs[i as int])),
        grid.holds(entry_of(cs[j as int])),
    ensures
        pair_count(pairs, i as int, j as int) == 1,
{
    assert(pairs.contains(((i as int) as usize, (j as int) as usize)));
    lemma_pair_count_once(pairs, i, j);
}

proof fn lemma_pair_count_once(pairs: Seq<(usize, usize)>, i: usize, j: usize)
    requires
        pairs.no_duplicates(),
        pairs.contains((i, j)),
        i < j,
        forall|k: int| 0 <= k < pairs.len() ==> (#[trigger] pairs[k]).0 < pairs[k].1,
    ensures
        pair_count(pairs, i as int, j as int) == 1,
    decreases pairs.len(),
{
    let v = pairs.drop_last();
    let last = pairs.last();
    if last == (i, j) {
        assert(!v.contains((i, j))) by {
            if v.contains((i, j)) {
                let k = choose|k: int| 0 <= k < v.len() && v[k] == (i, j);
                assert(pairs[k] == pairs[pairs.len() - 1]);
            }
        }
        lemma_pair_count_zero(v, i, j);
    } else {
        let k = choose|k: int| 0 <= k < pairs.len() && pairs[k] == (i, j);
        assert(v[k] == pairs[k]);
        lemma_pair_count_once(v, i, j);
        assert(pairs[pairs.len() - 1].0 < pairs[pairs.len() - 1].1);
    }
}

proof fn lemma_pair_count_zero(pairs: Seq<(usize, usize)>, i: usize, j: usize)
    requires
        !pairs.contains((i, j)),
        i < j,
        forall|k: int| 0 <= k < pairs.len() ==> (#[trigger] pairs[k]).0 < pairs[k].1,
    ensures
        pair_count(pairs, i as int, j as int) == 0,
    decreases pairs.len(),
{
    if pairs.len() > 0 {
        let v = pairs.drop_last();
        assert(!v.contains((i, j))) by {
            if v.contains((i, j)) {
                let k = choose|k: int| 0 <= k < v.len() && v[k] == (i, j);
                assert(pairs[k] == v[k]);
            }
        }
        assert(pairs[pairs.len() - 1] != (i, j));
        assert(pairs[pairs.len() - 1].0 < pairs[pairs.len() - 1].1);
        lemma_pair_count_zero(v, i, j);
    }
}

/// `v` clamped to the range of a `u8`.
pub open spec fn clamp_u8(v: int) -> u8 {
    if v > 255 {
        255
    } else if v < 0 {
        0
    } else {
        v as u8
    }
}

/// Damage dealt: the role's base (soldiers double, queens and brood half), plus the
/// roll and a tenth of the strength, less five, each step saturating.
pub open spec fn damage_of(strength: u8, role: AntRole, cfg: CombatConfig, roll: u8) -> u8 {
    let base: u8 = match role {
        AntRole::Soldier => clamp_u8(cfg.base_damage * 2),
        AntRole::Worker => cfg.base_damage,
        _ => (cfg.base_damage / 2) as u8,
    };
    clamp_u8(clamp_u8(clamp_u8(base + roll) + strength / 10) - 5)
}

/// `a` after taking `damage`: health drops, saturating; at zero the agent is marked
/// dead. An agent hit for the first time starts from the default health.
pub open spec fn damaged(a: Agent, damage: u8, cfg: CombatConfig) -> Agent {
    match a.fighter {
        Some(f) => {
            let h = clamp_u8(f.health - damage);
            if h == 0 {
                a.marked_dead()
            } else {
                Agent { fighter: Some(Fighter { health: h, ..f }), ..a }
            }
        },
        None => {
            let h = clamp_u8(cfg.default_health - damage);
            if h == 0 {
                a.marked_dead()
            } else {
                Agent { fighter: Some(Fighter { strength: cfg.default_fighter_strength, health: h }), ..a }
            }
        },
    }
}

/// `b` differs from `a` at most in its combat statistics and death mark.
pub open spec fn only_combat_changed(a: Agent, b: Agent) -> bool {
    b == Agent { fighter: b.fighter, dead: b.dead, ..a }
}

/// Damage dealt by a combatant, for a given roll.
pub fn calculate_damage(strength: u8, role: AntRole, cfg: &CombatConfig, roll: u8) -> (r: u8)
    ensures
        r == damage_of(strength, role, *cfg, roll),
{
    let base: u8 = match role {
        AntRole::Soldier => if cfg.base_damage > 127 {
            255
        } else {
            cfg.base_damage * 2
        },
        AntRole::Worker => cfg.base_damage,
        _ => cfg.base_damage / 2,
    };
    base.saturating_add(roll).saturating_add(strength / 10).saturating_sub(5)
}

/// Applies `damage` to an agent.
pub fn apply_damage(a: Agent, damage: u8, cfg: &CombatConfig) -> (r: Agent)
    ensures
        r == damaged(a, damage, *cfg),
        only_combat_changed(a, r),
{
    match a.fighter {
        Some(f) => {
            let h = f.health.saturating_sub(damage);
            if h == 0 {
                Agent { dead: true, ..a }
            } else {
                Agent { fighter: Some(Fighter { health: h, ..f }), ..a }
            }
        },
        None => {
            let h = cfg.default_health.saturating_sub(damage);
            if h == 0 {
                Agent { dead: true, ..a }
            } else {
                Agent { fighter: Some(Fighter { strength: cfg.default_fighter_strength, health: h }), ..a }
            }
        },
    }
}

/// Workers and soldiers fight.
pub open spec fn fights(a: Agent) -> bool {
    a.role == AntRole::Worker || a.role == AntRole::Soldier
}

/// Agent `k` of `m` has a fighter of another colony within one tile.
pub open spec fn enemy_near(m: Map<u64, Agent>, k: u64) -> bool {
    exists|e: u64|
        #[trigger] m.contains_key(e) && e != k && fights(m[e]) && m[e].colony_id != m[k].colony_id && -1 <= m[e].x
            - m[k].x <= 1 && -1 <= m[e].y - m[k].y <= 1
}

/// Combatant `c` is agent `c.id` of `m` as it stands.
pub open spec fn drawn_from(m: Map<u64, Agent>, c: Combatant) -> bool {
    &&& m.contains_key(c.id)
    &&& m[c.id].x == c.x
    &&& m[c.id].y == c.y
    &&& m[c.id].colony_id == c.colony
    &&& m[c.id].role == c.role
    &&& fights(m[c.id])
}

/// Some combatant of `cs` stands for agent `k`.
pub open spec fn listed_combatant(cs: Seq<Combatant>, k: u64) -> bool {
    exists|a: int| 0 <= a < cs.len() && (#[trigger] cs[a]).id == k
}

/// The index entry of agent `k` of `m` at its current position.
pub open spec fn entry_in(m: Map<u64, Agent>, k: u64) -> SpatialEntry {
    (k, m[k].x, m[k].y, m[k].colony_id)
}

/// Agent `k` of `m` has an indexed fighter of another colony within one tile.
pub open spec fn indexed_foe(m: Map<u64, Agent>, grid: &SpatialGrid, k: u64) -> bool {
    exists|e: u64|
        #[trigger] m.contains_key(e) && e != k && fights(m[e]) && m[e].colony_id != m[k].colony_id && -1 <= m[e].x
            - m[k].x <= 1 && -1 <= m[e].y - m[k].y <= 1 && grid.holds(entry_in(m, e))
}

/// Strength a combatant of the given role fights with.
pub open spec fn role_strength(role: AntRole, cfg: CombatConfig) -> u8 {
    match role {
        AntRole::Soldier => cfg.soldier_strength,
        AntRole::Worker => cfg.worker_strength,
        _ => cfg.other_strength,
    }
}

/// `d` is the damage that combatant `c` deals for some roll.
pub open spec fn blow(d: u8, c: Combatant, cfg: CombatConfig) -> bool {
    exists|roll: u8| d == #[trigger] damage_of(c.strength, c.role, cfg, roll)
}

/// `after` is `before` hit once by `foe`, for some roll.
pub open spec fn hit_once_by(before: Agent, after: Agent, foe: Agent, cfg: CombatConfig) -> bool {
    exists|roll: u8| after == #[trigger] damaged(before, damage_of(role_strength(foe.role, cfg), foe.role, cfg, roll), cfg)
}

/// Agents `a` and `b` of `m` are indexed fighters of different colonies within one
/// tile, and `b` is the only fighter of another colony within one tile of `a`.
pub open spec fn duel(m: Map<u64, Agent>, grid: &SpatialGrid, a: u64, b: u64) -> bool {
    &&& m.contains_key(a) && m.contains_key(b) && a != b
    &&& fights(m[a]) && fights(m[b])
    &&& m[a].colony_id != m[b].colony_id
    &&& -1 <= m[a].x - m[b].x <= 1 && -1 <= m[a].y - m[b].y <= 1
    &&& grid.holds(entry_in(m, a)) && grid.holds(entry_in(m, b))
    &&& forall|e: u64|
        #[trigger] m.contains_key(e) && e != a && fights(m[e]) && m[e].colony_id != m[a].colony_id && -1 <= m[e].x - m[a].x
            <= 1 && -1 <= m[e].y - m[a].y <= 1 ==> e == b
}

/// Hit `h` is the only one of `hits` that lands on agent `a`.
pub open spec fn sole_hit(hits: Seq<(u64, u8)>, a: u64, h: int) -> bool {
    &&& 0 <= h < hits.len()
    &&& hits[h].0 == a
    &&& forall|h2: int| 0 <= h2 < hits.len() && (#[trigger] hits[h2]).0 == a ==> h2 == h
}

/// `d` is a blow dealt by agent `foe` for some roll.
pub open spec fn blow_by(d: u8, foe: Agent, cfg: CombatConfig) -> bool {
    exists|roll: u8| d == #[trigger] damage_of(role_strength(foe.role, cfg), foe.role, cfg, roll)
}

/// In a duel, the hits of a round land on the first duellist exactly once, as a
/// blow by the other.
pub proof fn lemma_duel_sole_hit(
    cs: Seq<Combatant>,
    pairs: Seq<(usize, usize)>,
    hits: Seq<(u64, u8)>,
    m: Map<u64, Agent>,
    grid: &SpatialGrid,
    a: u64,
    b: u64,
    cfg: CombatConfig,
)
    requires
        sound_pairs(cs, pairs),
        complete_pairs(cs, grid, pairs),
        forall|i: int, j: int| 0 <= i < j < cs.len() ==> (#[trigger] cs[i]).id != (#[trigger] cs[j]).id,
        forall|i: int| 0 <= i < cs.len() ==> drawn_from(m, #[trigger] cs[i]),
        forall|i: int| 0 <= i < cs.len() ==> (#[trigger] cs[i]).strength == role_strength(cs[i].role, cfg),
        listed_combatant(cs, a),
        listed_combatant(cs, b),
        cs.len() <= usize::MAX,
        hits.len() == 2 * pairs.len(),
        forall|p2: int|
            0 <= p2 < pairs.len() ==> hits[2 * p2].0 == cs[(#[trigger] pairs[p2]).1 as int].id && hits[2 * p2 + 1].0
                == cs[pairs[p2].0 as int].id && blow(hits[2 * p2].1, cs[pairs[p2].0 as int], cfg) && blow(
                hits[2 * p2 + 1].1,
                cs[pairs[p2].1 as int],
                cfg,
            ),
        duel(m, grid, a, b),
    ensures
        exists|h: int| #[trigger] sole_hit(hits, a, h) && blow_by(hits[h].1, m[b], cfg),
{
    let ia = choose|i: int| 0 <= i < cs.len() && (#[trigger] cs[i]).id == a;
    let ib = choose|i: int| 0 <= i < cs.len() && (#[trigger] cs[i]).id == b;
    assert(drawn_from(m, cs[ia]) && drawn_from(m, cs[ib]));
    assert(entry_of(cs[ia]) == entry_in(m, a));
    assert(entry_of(cs[ib]) == entry_in(m, b));
    let (lo, hi) = if ia < ib { (ia, ib) } else { (ib, ia) };
    assert(hostile_neighbours(cs[lo], cs[hi]));
    assert(pairs.contains((lo as usize, hi as usize)));
    let pa = choose|p: int| 0 <= p < pairs.len() && pairs[p] == (lo as usize, hi as usize);
    assert(pairs[pa].0 as int == lo && pairs[pa].1 as int == hi);
    let ha = if ia == lo { 2 * pa + 1 } else { 2 * pa };
    assert(hits[2 * pa].0 == cs[hi].id && hits[2 * pa + 1].0 == cs[lo].id);
    assert(hits[ha].0 == a);
    let c_b = cs[ib];
    assert(blow(hits[ha].1, c_b, cfg));
    let r = choose|roll: u8| hits[ha].1 == #[trigger] damage_of(c_b.strength, c_b.role, cfg, roll);
    assert(hits[ha].1 == damage_of(role_strength(m[b].role, cfg), m[b].role, cfg, r));
    assert forall|h2: int| 0 <= h2 < hits.len() && (#[trigger] hits[h2]).0 == a implies h2 == ha by {
        let p = h2 / 2;
        vstd::arithmetic::div_mod::lemma_fundamental_div_mod(h2, 2);
        assert(0 <= p < pairs.len());
        let pr = pairs[p];
        assert(pr.0 < pr.1 < cs.len() && hostile_neighbours(cs[pr.0 as int], cs[pr.1 as int]));
        let (me, other) = if h2 % 2 == 0 { (pr.1 as int, pr.0 as int) } else { (pr.0 as int, pr.1 as int) };
        assert(cs[me].id == a);
        if me != ia {
            if me < ia {
                assert(cs[me].id != cs[ia].id);
            } else {
                assert(cs[ia].id != cs[me].id);
            }
        }
        assert(drawn_from(m, cs[other]));
        let e = cs[other].id;
        assert(m.contains_key(e));
        assert(e == b);
        if other != ib {
            if other < ib {
                assert(cs[other].id != cs[ib].id);
            } else {
                assert(cs[ib].id != cs[other].id);
            }
        }
        assert(pairs[p] == (lo as usize, hi as usize));
        if p != pa {
            if p < pa {
                assert(pairs[p] != pairs[pa]);
            } else {
                assert(pairs[pa] != pairs[p]);
            }
        }
    }
    assert(sole_hit(hits, a, ha));
}

/// Workers and soldiers, with the strength of their role.
pub fn gather_combatants(store: &AgentStore, config: &SimConfig) -> (r: Vec<Combatant>)
    ensures
        forall|a: int, b: int| 0 <= a < b < r@.len() ==> (#[trigger] r@[a]).id != (#[trigger] r@[b]).id,
        forall|a: int| 0 <= a < r@.len() ==> drawn_from(store@, #[trigger] r@[a]),
        forall|a: int| 0 <= a < r@.len() ==> (#[trigger] r@[a]).strength == role_strength(r@[a].role, config.combat),
        forall|k: u64| store@.contains_key(k) && fights(store@[k]) ==> #[trigger] listed_combatant(r@, k),
{
    let ids = store.ids();
    let mut cs: Vec<Combatant> = Vec::new();
    let mut i: usize = 0;
    while i < ids.len()
        invariant
            0 <= i <= ids@.len(),
            ids@.no_duplicates(),
            forall|j: int| 0 <= j < ids@.len() ==> store@.contains_key(#[trigger] ids@[j]),
            forall|a: int, b: int| 0 <= a < b < cs@.len() ==> (#[trigger] cs@[a]).id != (#[trigger] cs@[b]).id,
            forall|a: int| 0 <= a < cs@.len() ==> exists|j: int| 0 <= j < i && ids@[j] == (#[trigger] cs@[a]).id,
            forall|a: int| 0 <= a < cs@.len() ==> drawn_from(store@, #[trigger] cs@[a]),
            forall|a: int| 0 <= a < cs@.len() ==> (#[trigger] cs@[a]).strength == role_strength(cs@[a].role, config.combat),
            forall|j: int| 0 <= j < i && fights(store@[ids@[j]]) ==> #[trigger] listed_combatant(cs@, ids@[j]),
        decreases ids@.len() - i,
    {
        let id = ids[i];
        let a = store.get(id).unwrap();
        let ghost cs_before = cs@;
        if a.role == AntRole::Worker || a.role == AntRole::Soldier {
            let strength = match a.role {
                AntRole::Soldier => config.combat.soldier_strength,
                AntRole::Worker => config.combat.worker_strength,
                _ => config.combat.other_strength,
            };
            let ghost before = cs@;
            cs.push(Combatant { id, x: a.x, y: a.y, colony: a.colony_id, role: a.role, strength });
            proof {
                assert forall|p: int, q: int| 0 <= p < q < cs@.len() implies (#[trigger] cs@[p]).id != (#[trigger] cs@[q]).id by {
                    if q == cs@.len() - 1 {
                        assert(cs@[p] == before[p]);
                        let j = choose|j: int| 0 <= j < i && ids@[j] == before[p].id;
                        assert(ids@[j] != ids@[i as int]);
                    } else {
                        assert(cs@[p] == before[p] && cs@[q] == before[q]);
                    }
                }
                assert forall|p: int| 0 <= p < cs@.len() implies drawn_from(store@, #[trigger] cs@[p])
                    && cs@[p].strength == role_strength(cs@[p].role, config.combat) by {
                    if p < before.len() {
                        assert(cs@[p] == before[p]);
                    }
                }
                assert forall|p: int| 0 <= p < cs@.len() implies exists|j: int| 0 <= j < i + 1 && ids@[j] == (#[trigger] cs@[p]).id by {
                    if p < before.len() {
                        assert(cs@[p] == before[p]);
                        let j = choose|j: int| 0 <= j < i && ids@[j] == before[p].id;
                        assert(0 <= j < i + 1 && ids@[j] == cs@[p].id);
                    } else {
                        assert(ids@[i as int] == cs@[p].id);
                    }
                }
            }
        }
        proof {
            assert forall|j: int| 0 <= j < i + 1 && fights(store@[ids@[j]]) implies #[trigger] listed_combatant(cs@, ids@[j]) by {
                if j < i {
                    assert(listed_combatant(cs_before, ids@[j]));
                    let a2 = choose|a2: int| 0 <= a2 < cs_before.len() && (#[trigger] cs_before[a2]).id == ids@[j];
                    assert(cs@[a2] == cs_before[a2]);
                } else {
                    assert(cs@[cs@.len() - 1].id == ids@[j]);
                }
            }
        }
        i = i + 1;
    }
    proof {
        assert forall|k: u64| store@.contains_key(k) && fights(store@[k]) implies #[trigger] listed_combatant(cs@, k) by {
            let j = crate::world::lemma_listed_index(ids@, k);
        }
    }
    cs
}

fn damage_roll(cfg: &CombatConfig) -> (r: u8)
    ensures
        cfg.damage_random_range > 0 ==> r < cfg.damage_random_range,
        cfg.damage_random_range == 0 ==> r == 0,
{
    if cfg.damage_random_range > 0 {
        random_u8(0, cfg.damage_random_range - 1)
    } else {
        0
    }
}

/// One combat round, on combat ticks only: every pair of hostile neighbours that
/// `combat_pairs` finds exchanges blows once, each side taking the other's damage,
/// and danger scent is laid where both stand. Nothing but combat statistics and
/// death marks change on agents.
#[verifier::rlimit(80)]
pub fn combat_system(
    store: &mut AgentStore,
    pheromones: &mut PheromoneGrid,
    tick: u64,
    spatial_grid: &SpatialGrid,
    config: &SimConfig,
)
    requires
        old(pheromones).wf(),
        spatial_grid.wf(),
    ensures
        final(pheromones).wf(),
        final(pheromones).same_shape(old(pheromones)),
        final(store)@.dom() == old(store)@.dom(),
        forall|k: u64| old(store)@.contains_key(k) ==> only_combat_changed(old(store)@[k], #[trigger] final(store)@[k]),
        forall|k: u64|
            old(store)@.contains_key(k) && !(fights(old(store)@[k]) && enemy_near(old(store)@, k))
                ==> #[trigger] final(store)@[k] == old(store)@[k],
        config.combat.combat_interval == 0 || tick % config.combat.combat_interval != 0 ==> final(store)@ == old(store)@
            && *final(pheromones) == *old(pheromones),
        config.combat.combat_interval > 0 && tick % config.combat.combat_interval == 0 ==> forall|k: u64|
            old(store)@.contains_key(k) && fights(old(store)@[k]) && spatial_grid.holds(entry_in(old(store)@, k))
                && indexed_foe(old(store)@, spatial_grid, k) ==> (#[trigger] final(store)@[k]).fighter is Some
                || final(store)@[k].dead,
        config.combat.combat_interval > 0 && tick % config.combat.combat_interval == 0 ==> forall|a: u64, b: u64|
            #[trigger] duel(old(store)@, spatial_grid, a, b) ==> hit_once_by(
                old(store)@[a],
                final(store)@[a],
                old(store)@[b],
                config.combat,
            ),
        forall|i: int|
            0 <= i < old(pheromones).data@.len() && #[trigger] final(pheromones).data@[i] != old(pheromones).data@[i]
                ==> danger_spot(old(store)@, &*old(pheromones), i),
        forall|i: int| 0 <= i < old(pheromones).data@.len() ==> #[trigger] final(pheromones).data@[i] >= old(pheromones).data@[i],
        forall|i: int|
            0 <= i < old(pheromones).data@.len() && i % 3 != 2 ==> #[trigger] final(pheromones).data@[i] == old(pheromones).data@[i],
        config.combat.combat_interval > 0 && tick % config.combat.combat_interval == 0 ==> forall|k: u64|
            old(store)@.contains_key(k) && fights(old(store)@[k]) && spatial_grid.holds(entry_in(old(store)@, k))
                && indexed_foe(old(store)@, spatial_grid, k) && old(pheromones).in_bounds(
                old(store)@[k].x as int,
                old(store)@[k].y as int,
            ) ==> #[trigger] danger_raised(
                &*old(pheromones),
                &*final(pheromones),
                spot_of(old(store)@, k),
                config.combat.danger_deposit_amount,
            ),
{
    if config.combat.combat_interval == 0 || tick % config.combat.combat_interval != 0 {
        return ;
    }
    let cs = gather_combatants(store, config);
    let pairs = combat_pairs(&cs, spatial_grid);
    let mut hits: Vec<(u64, u8)> = Vec::new();
    let mut deposits: Vec<(i32, i32, u8)> = Vec::new();
    let mut pi: usize = 0;
    while pi < pairs.len()
        invariant
            sound_pairs(cs@, pairs@),
            0 <= pi <= pairs@.len(),
            store@ == old(store)@,
            forall|a: int, b: int| 0 <= a < b < cs@.len() ==> (#[trigger] cs@[a]).id != (#[trigger] cs@[b]).id,
            forall|a: int| 0 <= a < cs@.len() ==> drawn_from(store@, #[trigger] cs@[a]),
            forall|h: int| 0 <= h < hits@.len() ==> store@.contains_key((#[trigger] hits@[h]).0) && fights(store@[hits@[h].0]) && enemy_near(store@, hits@[h].0),
            forall|p2: int| 0 <= p2 < pi ==> #[trigger] hit_listed(hits@, cs@[pairs@[p2].0 as int].id) && hit_listed(
                hits@,
                cs@[pairs@[p2].1 as int].id,
            ),
            forall|p2: int| 0 <= p2 < pi ==> #[trigger] spot_listed(
                deposits@,
                (cs@[pairs@[p2].0 as int].x, cs@[pairs@[p2].0 as int].y, cs@[pairs@[p2].0 as int].colony),
            ) && spot_listed(deposits@, (cs@[pairs@[p2].1 as int].x, cs@[pairs@[p2].1 as int].y, cs@[pairs@[p2].1 as int].colony)),
            hits@.len() == 2 * pi,
            forall|d2: int| 0 <= d2 < deposits@.len() ==> fighter_spot(store@, #[trigger] deposits@[d2]),
            forall|a: int| 0 <= a < cs@.len() ==> (#[trigger] cs@[a]).strength == role_strength(cs@[a].role, config.combat),
            forall|p2: int|
                0 <= p2 < pi ==> hits@[2 * p2].0 == cs@[(#[trigger] pairs@[p2]).1 as int].id && hits@[2 * p2 + 1].0
                    == cs@[pairs@[p2].0 as int].id && blow(hits@[2 * p2].1, cs@[pairs@[p2].0 as int], config.combat) && blow(
                    hits@[2 * p2 + 1].1,
                    cs@[pairs@[p2].1 as int],
                    config.combat,
                ),
        decreases pairs@.len() - pi,
    {
        let (p, q) = pairs[pi];
        let a = cs[p];
        let b = cs[q];
        let roll_a = damage_roll(&config.combat);
        let roll_b = damage_roll(&config.combat);
        let damage_a = calculate_damage(a.strength, a.role, &config.combat, roll_a);
        let damage_b = calculate_damage(b.strength, b.role, &config.combat, roll_b);
        proof {
            let (p0, q0) = pairs@[pi as int];
            assert(p0 < q0 < cs@.len() && hostile_neighbours(cs@[p0 as int], cs@[q0 as int]));
            assert(cs@[p0 as int].id != cs@[q0 as int].id);
            assert(drawn_from(store@, a) && drawn_from(store@, b));
            assert(store@.contains_key(a.id));
            assert(store@.contains_key(b.id));
            assert(enemy_near(store@, b.id));
            assert(enemy_near(store@, a.id));
        }
        let ghost before = hits@;
        hits.push((b.id, damage_a));
        hits.push((a.id, damage_b));
        let ghost dbefore = deposits@;
        deposits.push((a.x, a.y, a.colony));
        deposits.push((b.x, b.y, b.colony));
        proof {
            assert forall|h: int| 0 <= h < hits@.len() implies store@.contains_key((#[trigger] hits@[h]).0) && fights(store@[hits@[h].0]) && enemy_near(store@, hits@[h].0) by {
                if h < before.len() {
                    assert(hits@[h] == before[h]);
                }
            }
            assert forall|p2: int| 0 <= p2 < pi + 1 implies #[trigger] hit_listed(hits@, cs@[pairs@[p2].0 as int].id) && hit_listed(
                hits@,
                cs@[pairs@[p2].1 as int].id,
            ) by {
                if p2 < pi {
                    assert(hit_listed(before, cs@[pairs@[p2].0 as int].id));
                    assert(hit_listed(before, cs@[pairs@[p2].1 as int].id));
                    let h1 = choose|h: int| 0 <= h < before.len() && (#[trigger] before[h]).0 == cs@[pairs@[p2].0 as int].id;
                    let h2 = choose|h: int| 0 <= h < before.len() && (#[trigger] before[h]).0 == cs@[pairs@[p2].1 as int].id;
                    assert(hits@[h1] == before[h1]);
                    assert(hits@[h2] == before[h2]);
                } else {
                    assert(hits@[before.len() as int].0 == b.id);
                    assert(hits@[before.len() as int + 1].0 == a.id);
                }
            }
        }
        proof {
            assert forall|p2: int| 0 <= p2 < pi + 1 implies #[trigger] spot_listed(
                deposits@,
                (cs@[pairs@[p2].0 as int].x, cs@[pairs@[p2].0 as int].y, cs@[pairs@[p2].0 as int].colony),
            ) && spot_listed(deposits@, (cs@[pairs@[p2].1 as int].x, cs@[pairs@[p2].1 as int].y, cs@[pairs@[p2].1 as int].colony)) by {
                if p2 < pi {
                    let s1 = (cs@[pairs@[p2].0 as int].x, cs@[pairs@[p2].0 as int].y, cs@[pairs@[p2].0 as int].colony);
                    let s2 = (cs@[pairs@[p2].1 as int].x, cs@[pairs@[p2].1 as int].y, cs@[pairs@[p2].1 as int].colony);
                    assert(spot_listed(dbefore, s1));
                    assert(spot_listed(dbefore, s2));
                    let i1 = choose|i: int| 0 <= i < dbefore.len() && #[trigger] dbefore[i] == s1;
                    let i2 = choose|i: int| 0 <= i < dbefore.len() && #[trigger] dbefore[i] == s2;
                    assert(deposits@[i1] == dbefore[i1]);
                    assert(deposits@[i2] == dbefore[i2]);
                } else {
                    assert(deposits@[dbefore.len() as int] == (a.x, a.y, a.colony));
                    assert(deposits@[dbefore.len() as int + 1] == (b.x, b.y, b.colony));
                }
            }
        }
        proof {
            assert(forall|p2: int| 0 <= p2 < pi + 1 ==> #[trigger] hit_listed(hits@, cs@[pairs@[p2].0 as int].id) && hit_listed(
                hits@,
                cs@[pairs@[p2].1 as int].id,
            ));
            assert(blow(damage_a, a, config.combat));
            assert(blow(damage_b, b, config.combat));
            assert(spot_of(store@, a.id) == (a.x, a.y, a.colony));
            assert(spot_of(store@, b.id) == (b.x, b.y, b.colony));
            assert forall|d2: int| 0 <= d2 < deposits@.len() implies fighter_spot(store@, #[trigger] deposits@[d2]) by {
                if d2 < dbefore.len() {
                    assert(deposits@[d2] == dbefore[d2]);
                } else if d2 == dbefore.len() {
                    assert(store@.contains_key(a.id));
                } else {
                    assert(store@.contains_key(b.id));
                }
            }
            assert forall|p2: int|
                0 <= p2 < pi + 1 implies hits@[2 * p2].0 == cs@[(#[trigger] pairs@[p2]).1 as int].id && hits@[2 * p2 + 1].0
                    == cs@[pairs@[p2].0 as int].id && blow(hits@[2 * p2].1, cs@[pairs@[p2].0 as int], config.combat) && blow(
                    hits@[2 * p2 + 1].1,
                    cs@[pairs@[p2].1 as int],
                    config.combat,
                ) by {
                if p2 < pi {
                    assert(hits@[2 * p2] == before[2 * p2]);
                    assert(hits@[2 * p2 + 1] == before[2 * p2 + 1]);
                } else {
                    assert(hits@[2 * p2] == (b.id, damage_a));
                    assert(hits@[2 * p2 + 1] == (a.id, damage_b));
                }
            }
            assert(forall|p2: int| 0 <= p2 < pi + 1 ==> #[trigger] spot_listed(
                deposits@,
                (cs@[pairs@[p2].0 as int].x, cs@[pairs@[p2].0 as int].y, cs@[pairs@[p2].0 as int].colony),
            ) && spot_listed(deposits@, (cs@[pairs@[p2].1 as int].x, cs@[pairs@[p2].1 as int].y, cs@[pairs@[p2].1 as int].colony)));
        }
        pi = pi + 1;
    }
    let n_cs = cs.len();
    proof {
        assert(pi == pairs@.len());
        assert forall|a: u64, b: u64| #[trigger] duel(old(store)@, spatial_grid, a, b) implies exists|h: int|
            #[trigger] sole_hit(hits@, a, h) && blow_by(hits@[h].1, old(store)@[b], config.combat) by {
            assert(listed_combatant(cs@, a));
            assert(listed_combatant(cs@, b));
            lemma_duel_sole_hit(cs@, pairs@, hits@, old(store)@, spatial_grid, a, b, config.combat);
        }
        assert(forall|p: int| 0 <= p < pairs@.len() ==> #[trigger] hit_listed(hits@, cs@[pairs@[p].0 as int].id));
        assert forall|p: int| 0 <= p < pairs@.len() implies #[trigger] hit_listed(hits@, cs@[pairs@[p].1 as int].id) by {
            assert(hit_listed(hits@, cs@[pairs@[p].0 as int].id));
        }
        assert(forall|p2: int| 0 <= p2 < pairs@.len() ==> #[trigger] spot_listed(
            deposits@,
            (cs@[pairs@[p2].0 as int].x, cs@[pairs@[p2].0 as int].y, cs@[pairs@[p2].0 as int].colony),
        ));
        assert forall|p2: int| 0 <= p2 < pairs@.len() implies #[trigger] spot_listed(
            deposits@,
            (cs@[pairs@[p2].1 as int].x, cs@[pairs@[p2].1 as int].y, cs@[pairs@[p2].1 as int].colony),
        ) by {
            assert(spot_listed(
                deposits@,
                (cs@[pairs@[p2].0 as int].x, cs@[pairs@[p2].0 as int].y, cs@[pairs@[p2].0 as int].colony),
            ));
        }
        assert forall|k: u64|
            old(store)@.contains_key(k) && fights(old(store)@[k]) && spatial_grid.holds(entry_in(old(store)@, k))
                && indexed_foe(old(store)@, spatial_grid, k) implies #[trigger] hit_listed(hits@, k) && spot_listed(
                deposits@,
                spot_of(old(store)@, k),
            ) by {
            let e = choose|e: u64|
                #[trigger] old(store)@.contains_key(e) && e != k && fights(old(store)@[e]) && old(store)@[e].colony_id
                    != old(store)@[k].colony_id && -1 <= old(store)@[e].x - old(store)@[k].x <= 1 && -1 <= old(store)@[e].y
                    - old(store)@[k].y <= 1 && spatial_grid.holds(entry_in(old(store)@, e));
            assert(listed_combatant(cs@, k));
            assert(listed_combatant(cs@, e));
            let ia = choose|a2: int| 0 <= a2 < cs@.len() && (#[trigger] cs@[a2]).id == k;
            let ib = choose|a2: int| 0 <= a2 < cs@.len() && (#[trigger] cs@[a2]).id == e;
            assert(drawn_from(old(store)@, cs@[ia]));
            assert(drawn_from(old(store)@, cs@[ib]));
            assert(entry_of(cs@[ia]) == entry_in(old(store)@, k));
            assert(entry_of(cs@[ib]) == entry_in(old(store)@, e));
            let (lo, hi) = if ia < ib { (ia, ib) } else { (ib, ia) };
            assert(lo != hi);
            assert(hostile_neighbours(cs@[lo], cs@[hi]));
            assert(pairs@.contains((lo as usize, hi as usize)));
            let p = choose|p: int| 0 <= p < pairs@.len() && pairs@[p] == (lo as usize, hi as usize);
            assert(hit_listed(hits@, cs@[pairs@[p].0 as int].id) && hit_listed(hits@, cs@[pairs@[p].1 as int].id));
            assert(n_cs == cs@.len());
            assert(pairs@[p].0 as int == lo && pairs@[p].1 as int == hi);
            assert(cs@[lo].id == k || cs@[hi].id == k);
            assert(hit_listed(hits@, k));
            assert(spot_listed(deposits@, (cs@[lo].x, cs@[lo].y, cs@[lo].colony)));
            assert(spot_listed(deposits@, (cs@[hi].x, cs@[hi].y, cs@[hi].colony)));
            assert((cs@[ia].x, cs@[ia].y, cs@[ia].colony) == spot_of(old(store)@, k));
        }
    }
    let mut h: usize = 0;
    while h < hits.len()
        invariant
            0 <= h <= hits@.len(),
            store@.dom() == old(store)@.dom(),
            forall|k: u64| old(store)@.contains_key(k) ==> only_combat_changed(old(store)@[k], #[trigger] store@[k]),
            forall|h2: int| 0 <= h2 < hits@.len() ==> fights(old(store)@[(#[trigger] hits@[h2]).0]) && enemy_near(old(store)@, hits@[h2].0),
            forall|k: u64|
                old(store)@.contains_key(k) && !(fights(old(store)@[k]) && enemy_near(old(store)@, k)) ==> #[trigger] store@[k] == old(store)@[k],
            forall|h2: int| 0 <= h2 < h ==> #[trigger] struck(store@, hits@[h2].0),
            forall|a: u64, b: u64| #[trigger] duel(old(store)@, spatial_grid, a, b) ==> exists|h3: int|
                #[trigger] sole_hit(hits@, a, h3) && blow_by(hits@[h3].1, old(store)@[b], config.combat),
            forall|a: u64, b: u64, h3: int|
                #![trigger duel(old(store)@, spatial_grid, a, b), sole_hit(hits@, a, h3)]
                duel(old(store)@, spatial_grid, a, b) && sole_hit(hits@, a, h3) ==> store@[a] == if h3 < h {
                    damaged(old(store)@[a], hits@[h3].1, config.combat)
                } else {
                    old(store)@[a]
                },
            forall|h2: int| 0 <= h2 < hits@.len() ==> old(store)@.contains_key(#[trigger] hits@[h2].0),
            forall|d2: int| 0 <= d2 < deposits@.len() ==> fighter_spot(old(store)@, #[trigger] deposits@[d2]),
            config.combat.combat_interval > 0 && tick % config.combat.combat_interval == 0,
            forall|k: u64|
                old(store)@.contains_key(k) && fights(old(store)@[k]) && spatial_grid.holds(entry_in(old(store)@, k))
                    && indexed_foe(old(store)@, spatial_grid, k) ==> #[trigger] hit_listed(hits@, k) && spot_listed(
                    deposits@,
                    spot_of(old(store)@, k),
                ),
        decreases hits@.len() - h,
    {
        let (id, dmg) = hits[h];
        match store.get(id) {
            Some(a) => {
                let na = apply_damage(a, dmg, &config.combat);
                let ghost before = store@;
                store.set(id, na);
                proof {
                    assert(store@ == before.insert(id, na));
                    assert(store@.dom() =~= before.dom());
                    assert forall|k: u64| old(store)@.contains_key(k) implies only_combat_changed(old(store)@[k], #[trigger] store@[k]) by {
                        assert(only_combat_changed(old(store)@[k], before[k]));
                    }
                    assert(fights(old(store)@[hits@[h as int].0]) && enemy_near(old(store)@, hits@[h as int].0));
                    assert forall|k: u64|
                        old(store)@.contains_key(k) && !(fights(old(store)@[k]) && enemy_near(old(store)@, k)) implies #[trigger] store@[k] == old(store)@[k] by {
                        assert(k != id);
                        assert(before[k] == old(store)@[k]);
                    }
                    assert forall|h2: int| 0 <= h2 < h + 1 implies #[trigger] struck(store@, hits@[h2].0) by {
                        if h2 < h {
                            assert(struck(before, hits@[h2].0));
                            if hits@[h2].0 == id {
                                assert(a == before[id]);
                            }
                        }
                    }
                }
            },
            None => {
                proof {
                    assert(store@.contains_key(hits@[h as int].0)) by {
                        assert(old(store)@.contains_key(hits@[h as int].0));
                    }
                }
            },
        }
        h = h + 1;
    }
    proof {
        assert forall|k: u64|
            old(store)@.contains_key(k) && fights(old(store)@[k]) && spatial_grid.holds(entry_in(old(store)@, k))
                && indexed_foe(old(store)@, spatial_grid, k) implies (#[trigger] store@[k]).fighter is Some || store@[k].dead by {
            assert(hit_listed(hits@, k));
            let h2 = choose|h: int| 0 <= h < hits@.len() && (#[trigger] hits@[h]).0 == k;
            assert(struck(store@, hits@[h2].0));
        }
        assert forall|k: u64|
            old(store)@.contains_key(k) && fights(old(store)@[k]) && spatial_grid.holds(entry_in(old(store)@, k))
                && indexed_foe(old(store)@, spatial_grid, k) implies #[trigger] spot_listed(deposits@, spot_of(old(store)@, k)) by {
            assert(hit_listed(hits@, k));
        }
        assert forall|a: u64, b: u64| #[trigger] duel(old(store)@, spatial_grid, a, b) implies hit_once_by(
            old(store)@[a],
            store@[a],
            old(store)@[b],
            config.combat,
        ) by {
            let h3 = choose|h3: int| #[trigger] sole_hit(hits@, a, h3) && blow_by(hits@[h3].1, old(store)@[b], config.combat);
            assert(store@[a] == damaged(old(store)@[a], hits@[h3].1, config.combat));
            let r = choose|roll: u8| hits@[h3].1 == #[trigger] damage_of(role_strength(old(store)@[b].role, config.combat), old(store)@[b].role, config.combat, roll);
            assert(store@[a] == damaged(old(store)@[a], damage_of(role_strength(old(store)@[b].role, config.combat), old(store)@[b].role, config.combat, r), config.combat));
        }
    }
    let mut d: usize = 0;
    while d < deposits.len()
        invariant
            0 <= d <= deposits@.len(),
            pheromones.wf(),
            pheromones.same_shape(old(pheromones)),
            forall|i: int| 0 <= i < pheromones.data@.len() ==> #[trigger] pheromones.data@[i] >= old(pheromones).data@[i],
            forall|i: int|
                0 <= i < pheromones.data@.len() && i % 3 != 2 ==> #[trigger] pheromones.data@[i] == old(pheromones).data@[i],
            forall|d2: int|
                0 <= d2 < d && old(pheromones).in_bounds((#[trigger] deposits@[d2]).0 as int, deposits@[d2].1 as int)
                    ==> danger_raised(&*old(pheromones), &*pheromones, deposits@[d2], config.combat.danger_deposit_amount),
            config.combat.combat_interval > 0 && tick % config.combat.combat_interval == 0,
            forall|k: u64|
                old(store)@.contains_key(k) && fights(old(store)@[k]) && spatial_grid.holds(entry_in(old(store)@, k))
                    && indexed_foe(old(store)@, spatial_grid, k) ==> #[trigger] spot_listed(deposits@, spot_of(old(store)@, k)),
            forall|d2: int| 0 <= d2 < deposits@.len() ==> fighter_spot(old(store)@, #[trigger] deposits@[d2]),
            forall|i: int|
                0 <= i < pheromones.data@.len() && #[trigger] pheromones.data@[i] != old(pheromones).data@[i] ==> deposited_at(
                    deposits@,
                    &*old(pheromones),
                    d as int,
                    i,
                ),
        decreases deposits@.len() - d,
    {
        let (x, y, colony) = deposits[d];
        let ghost before = *pheromones;
        pheromones.deposit(x, y, colony, PheromoneType::Danger, config.combat.danger_deposit_amount);
        proof {
            if before.in_bounds(x as int, y as int) {
                let i = before.idx(x as int, y as int, colony as int, PheromoneType::Danger);
                crate::pheromone::lemma_idx_channel(&before, x as int, y as int, colony as int, PheromoneType::Danger);
                crate::pheromone::lemma_slot_offset(
                    x as int,
                    y as int,
                    before.slot(colony as int),
                    2,
                    before.width as int,
                    before.height as int,
                    before.max_colonies as int,
                );
            }
            assert forall|i: int|
                0 <= i < pheromones.data@.len() && #[trigger] pheromones.data@[i] != old(pheromones).data@[i] implies deposited_at(
                    deposits@,
                    &*old(pheromones),
                    d as int + 1,
                    i,
                ) by {
                if before.data@[i] != old(pheromones).data@[i] {
                    assert(deposited_at(deposits@, &*old(pheromones), d as int, i));
                    let d2 = choose|d2: int|
                        0 <= d2 < d && old(pheromones).in_bounds((#[trigger] deposits@[d2]).0 as int, deposits@[d2].1 as int) && i
                            == old(pheromones).idx(deposits@[d2].0 as int, deposits@[d2].1 as int, deposits@[d2].2 as int, PheromoneType::Danger);
                } else {
                    assert(deposits@[d as int] == (x, y, colony));
                }
            }
            assert forall|d2: int|
                0 <= d2 < d + 1 && old(pheromones).in_bounds((#[trigger] deposits@[d2]).0 as int, deposits@[d2].1 as int)
                    implies danger_raised(&*old(pheromones), &*pheromones, deposits@[d2], config.combat.danger_deposit_amount) by {
                let e = deposits@[d2];
                crate::pheromone::lemma_slot_offset(
                    e.0 as int,
                    e.1 as int,
                    old(pheromones).slot(e.2 as int),
                    2,
                    old(pheromones).width as int,
                    old(pheromones).height as int,
                    old(pheromones).max_colonies as int,
                );
                if d2 < d {
                    assert(danger_raised(&*old(pheromones), &before, e, config.combat.danger_deposit_amount));
                }
            }
        }
        d = d + 1;
    }
    proof {
        assert forall|k: u64|
            old(store)@.contains_key(k) && fights(old(store)@[k]) && spatial_grid.holds(entry_in(old(store)@, k))
                && indexed_foe(old(store)@, spatial_grid, k) && old(pheromones).in_bounds(
                old(store)@[k].x as int,
                old(store)@[k].y as int,
            ) implies #[trigger] danger_raised(
                &*old(pheromones),
                &*pheromones,
                spot_of(old(store)@, k),
                config.combat.danger_deposit_amount,
            ) by {
            assert(spot_listed(deposits@, spot_of(old(store)@, k)));
            let i = choose|i: int| 0 <= i < deposits@.len() && #[trigger] deposits@[i] == spot_of(old(store)@, k);
            assert(old(pheromones).in_bounds(deposits@[i].0 as int, deposits@[i].1 as int));
        }
        assert forall|i: int|
            0 <= i < old(pheromones).data@.len() && #[trigger] pheromones.data@[i] != old(pheromones).data@[i]
                implies danger_spot(old(store)@, &*old(pheromones), i) by {
            assert(deposited_at(deposits@, &*old(pheromones), d as int, i));
            let d2 = choose|d2: int|
                0 <= d2 < d && old(pheromones).in_bounds((#[trigger] deposits@[d2]).0 as int, deposits@[d2].1 as int) && i
                    == old(pheromones).idx(deposits@[d2].0 as int, deposits@[d2].1 as int, deposits@[d2].2 as int, PheromoneType::Danger);
            assert(fighter_spot(old(store)@, deposits@[d2]));
            let k = choose|k: u64| #[trigger] old(store)@.contains_key(k) && fights(old(store)@[k]) && spot_of(old(store)@, k) == deposits@[d2];
        }
    }
}

/// `spot` is the position and colony of some fighter of `m`.
pub open spec fn fighter_spot(m: Map<u64, Agent>, spot: (i32, i32, u8)) -> bool {
    exists|k: u64| #[trigger] m.contains_key(k) && fights(m[k]) && spot_of(m, k) == spot
}

/// Entry `i` of field `g` is the danger slot of one of the first `d` listed spots.
pub open spec fn deposited_at(ds: Seq<(i32, i32, u8)>, g: &PheromoneGrid, d: int, i: int) -> bool {
    exists|d2: int|
        0 <= d2 < d && g.in_bounds((#[trigger] ds[d2]).0 as int, ds[d2].1 as int) && i == g.idx(
            ds[d2].0 as int,
            ds[d2].1 as int,
            ds[d2].2 as int,
            PheromoneType::Danger,
        )
}

/// Entry `i` of field `g` is the danger slot of the cell of some fighter of `m`.
pub open spec fn danger_spot(m: Map<u64, Agent>, g: &PheromoneGrid, i: int) -> bool {
    exists|k: u64|
        #[trigger] m.contains_key(k) && fights(m[k]) && g.in_bounds(m[k].x as int, m[k].y as int) && i == g.idx(
            m[k].x as int,
            m[k].y as int,
            m[k].colony_id as int,
            PheromoneType::Danger,
        )
}

/// Position and colony of agent `k` of `m`, where its danger scent is laid.
pub open spec fn spot_of(m: Map<u64, Agent>, k: u64) -> (i32, i32, u8) {
    (m[k].x, m[k].y, m[k].colony_id)
}

/// `spot` is among the listed danger deposits.
pub open spec fn spot_listed(ds: Seq<(i32, i32, u8)>, spot: (i32, i32, u8)) -> bool {
    exists|i: int| 0 <= i < ds.len() && #[trigger] ds[i] == spot
}

/// The danger scent at `spot` in `after` is at least a full deposit of `amount`
/// above its value in `before`, capped at the maximum.
pub open spec fn danger_raised(before: &PheromoneGrid, after: &PheromoneGrid, spot: (i32, i32, u8), amount: u32) -> bool {
    after.value(spot.0 as int, spot.1 as int, spot.2 as int, PheromoneType::Danger) >= if before.value(
        spot.0 as int,
        spot.1 as int,
        spot.2 as int,
        PheromoneType::Danger,
    ) + amount < MAX_PHEROMONE {
        before.value(spot.0 as int, spot.1 as int, spot.2 as int, PheromoneType::Danger) + amount
    } else {
        MAX_PHEROMONE as int
    }
}

/// Some hit of `hits` lands on agent `k`.
pub open spec fn hit_listed(hits: Seq<(u64, u8)>, k: u64) -> bool {
    exists|h: int| 0 <= h < hits.len() && (#[trigger] hits[h]).0 == k
}

/// Agent `k` of `m` has taken a hit: it carries combat statistics or is dead.
pub open spec fn struck(m: Map<u64, Agent>, k: u64) -> bool {
    m.contains_key(k) && (m[k].fighter is Some || m[k].dead)
}

/// Soldier response to danger scent of its own colony: above the fight threshold it
/// goes to fight, below the stop threshold a fighter goes back to wandering.
pub open spec fn soldier_step(a: Agent, danger: u32, cfg: CombatConfig) -> Agent {
    if a.role != AntRole::Soldier {
        a
    } else if danger > cfg.fight_danger_threshold && a.state != AntState::Fighting {
        a.with_state(AntState::Fighting)
    } else if danger < cfg.stop_fight_threshold && a.state == AntState::Fighting {
        a.with_state(AntState::Wandering)
    } else {
        a
    }
}

/// Soldiers take up or drop fighting by the danger scent where they stand.
pub fn soldier_ai_system(store: &mut AgentStore, pheromones: &PheromoneGrid, config: &SimConfig)
    requires
        pheromones.wf(),
    ensures
        final(store)@.dom() == old(store)@.dom(),
        forall|k: u64|
            old(store)@.contains_key(k) ==> #[trigger] final(store)@[k] == soldier_step(
                old(store)@[k],
                pheromones.value(
                    old(store)@[k].x as int,
                    old(store)@[k].y as int,
                    old(store)@[k].colony_id as int,
                    PheromoneType::Danger,
                ),
                config.combat,
            ),
{
    let ids = store.ids();
    let mut updates: Vec<(u64, Agent)> = Vec::new();
    let mut i: usize = 0;
    while i < ids.len()
        invariant
            store@ == old(store)@,
            pheromones.wf(),
            0 <= i <= ids@.len(),
            ids@.no_duplicates(),
            forall|j: int| 0 <= j < ids@.len() ==> store@.contains_key(#[trigger] ids@[j]),
            updates@.len() == i,
            forall|j: int| 0 <= j < i ==> (#[trigger] updates@[j]) == (ids@[j], soldier_step(
                store@[ids@[j]],
                pheromones.value(
                    store@[ids@[j]].x as int,
                    store@[ids@[j]].y as int,
                    store@[ids@[j]].colony_id as int,
                    PheromoneType::Danger,
                ),
                config.combat,
            )),
        decreases ids@.len() - i,
    {
        let id = ids[i];
        let a = store.get(id).unwrap();
        let danger = pheromones.get(a.x, a.y, a.colony_id, PheromoneType::Danger);
        let na = if a.role != AntRole::Soldier {
            a
        } else if danger > config.combat.fight_danger_threshold && a.state != AntState::Fighting {
            Agent { state: AntState::Fighting, ..a }
        } else if danger < config.combat.stop_fight_threshold && a.state == AntState::Fighting {
            Agent { state: AntState::Wandering, ..a }
        } else {
            a
        };
        updates.push((id, na));
        i = i + 1;
    }
    store.apply(&updates);
    proof {
        let m = old(store)@;
        lemma_apply_listed(m, ids@, updates@);
        assert forall|k: u64| m.contains_key(k) implies #[trigger] store@[k] == soldier_step(
            m[k],
            pheromones.value(m[k].x as int, m[k].y as int, m[k].colony_id as int, PheromoneType::Danger),
            config.combat,
        ) by {
            let j = lemma_listed_index(ids@, k);
            assert(updates@[j].0 == ids@[j]);
        }
    }
}

/// Strongest danger scent at (x, y) among the first `n` colonies.
pub open spec fn max_danger(g: &PheromoneGrid, x: int, y: int, n: int) -> u32
    decreases n,
{
    if n <= 0 {
        0
    } else {
        let rest = max_danger(g, x, y, n - 1);
        let v = g.value(x, y, n - 1, PheromoneType::Danger);
        if v > rest {
            v
        } else {
            rest
        }
    }
}

/// Sum of the danger scent at (x, y) over the first `n` colonies.
pub open spec fn danger_sum(g: &PheromoneGrid, x: int, y: int, n: int) -> int
    decreases n,
{
    if n <= 0 {
        0
    } else {
        danger_sum(g, x, y, n - 1) + g.value(x, y, n - 1, PheromoneType::Danger)
    }
}

/// Worker response to danger of any colony: above the flee threshold it flees,
/// unless carrying food; below the stop threshold a fleeing worker wanders again.
pub open spec fn flee_step(a: Agent, danger: u32, cfg: CombatConfig) -> Agent {
    if a.role != AntRole::Worker {
        a
    } else if danger > cfg.flee_danger_threshold && a.state != AntState::Fleeing && a.state != AntState::Carrying {
        a.with_state(AntState::Fleeing)
    } else if danger < cfg.stop_flee_threshold && a.state == AntState::Fleeing {
        a.with_state(AntState::Wandering)
    } else {
        a
    }
}

/// Strongest danger scent at (x, y) over the colonies scanned.
pub fn strongest_danger(pheromones: &PheromoneGrid, x: i32, y: i32, colonies: u8) -> (r: u32)
    requires
        pheromones.wf(),
    ensures
        r == max_danger(pheromones, x as int, y as int, colonies as int),
{
    let mut danger: u32 = 0;
    let mut c: u8 = 0;
    while c < colonies
        invariant
            pheromones.wf(),
            c <= colonies,
            danger == max_danger(pheromones, x as int, y as int, c as int),
        decreases colonies - c,
    {
        let v = pheromones.get(x, y, c, PheromoneType::Danger);
        if v > danger {
            danger = v;
        }
        c = c + 1;
    }
    danger
}

/// Workers flee from, or stop fleeing, the danger scent where they stand.
pub fn flee_system(store: &mut AgentStore, pheromones: &PheromoneGrid, config: &SimConfig)
    requires
        pheromones.wf(),
    ensures
        final(store)@.dom() == old(store)@.dom(),
        forall|k: u64|
            old(store)@.contains_key(k) ==> #[trigger] final(store)@[k] == flee_step(
                old(store)@[k],
                max_danger(
                    pheromones,
                    old(store)@[k].x as int,
                    old(store)@[k].y as int,
                    config.combat.max_colonies_scan as int,
                ),
                config.combat,
            ),
{
    let ids = store.ids();
    let mut updates: Vec<(u64, Agent)> = Vec::new();
    let mut i: usize = 0;
    while i < ids.len()
        invariant
            store@ == old(store)@,
            pheromones.wf(),
            0 <= i <= ids@.len(),
            ids@.no_duplicates(),
            forall|j: int| 0 <= j < ids@.len() ==> store@.contains_key(#[trigger] ids@[j]),
            updates@.len() == i,
            forall|j: int| 0 <= j < i ==> (#[trigger] updates@[j]) == (ids@[j], flee_step(
                store@[ids@[j]],
                max_danger(
                    pheromones,
                    store@[ids@[j]].x as int,
                    store@[ids@[j]].y as int,
                    config.combat.max_colonies_scan as int,
                ),
                config.combat,
            )),
        decreases ids@.len() - i,
    {
        let id = ids[i];
        let a = store.get(id).unwrap();
        let danger = strongest_danger(pheromones, a.x, a.y, config.combat.max_colonies_scan);
        let na = if a.role != AntRole::Worker {
            a
        } else if danger > config.combat.flee_danger_threshold && a.state != AntState::Fleeing && a.state
            != AntState::Carrying {
            Agent { state: AntState::Fleeing, ..a }
        } else if danger < config.combat.stop_flee_threshold && a.state == AntState::Fleeing {
            Agent { state: AntState::Wandering, ..a }
        } else {
            a
        };
        updates.push((id, na));
        i = i + 1;
    }
    store.apply(&updates);
    proof {
        let m = old(store)@;
        lemma_apply_listed(m, ids@, updates@);
        assert forall|k: u64| m.contains_key(k) implies #[trigger] store@[k] == flee_step(
            m[k],
            max_danger(pheromones, m[k].x as int, m[k].y as int, config.combat.max_colonies_scan as int),
            config.combat,
        ) by {
            let j = lemma_listed_index(ids@, k);
            assert(updates@[j].0 == ids@[j]);
        }
    }
}

/// A fighter heads for the strongest danger scent of its own colony.
pub fn fighting_movement(x: i32, y: i32, colony_id: u8, pheromones: &PheromoneGrid) -> (r: Option<(i32, i32)>)
    requires
        pheromones.wf(),
    ensures
        pheromones.gradient_choice(x as int, y as int, colony_id as int, PheromoneType::Danger, r),
{
    pheromones.get_gradient(x, y, colony_id, PheromoneType::Danger)
}

/// Sum of the danger scent at (x + dx, y + dy) over the colonies scanned.
pub fn total_danger(pheromones: &PheromoneGrid, x: i32, y: i32, dx: i32, dy: i32, colonies: u8) -> (r: u64)
    requires
        pheromones.wf(),
        -1 <= dx <= 1,
        -1 <= dy <= 1,
    ensures
        r == danger_sum(pheromones, x + dx, y + dy, colonies as int),
        r <= colonies * 1_000_000_000,
{
    let mut sum: u64 = 0;
    let mut c: u8 = 0;
    while c < colonies
        invariant
            pheromones.wf(),
            c <= colonies,
            -1 <= dx <= 1,
            -1 <= dy <= 1,
            sum == danger_sum(pheromones, x + dx, y + dy, c as int),
            sum <= c * 1_000_000_000,
        decreases colonies - c,
    {
        sum = sum + pheromones.get_offset(x, y, dx, dy, c, PheromoneType::Danger) as u64;
        c = c + 1;
    }
    sum
}

/// Danger summed over colonies at the `k`-th neighbour of (x, y).
pub open spec fn neighbour_danger(g: &PheromoneGrid, x: int, y: int, n: int, k: int) -> int {
    danger_sum(g, x + neighbour_offset(k).0, y + neighbour_offset(k).1, n)
}

/// A fleeing worker heads for the least dangerous neighbour, among those less
/// dangerous than where it stands, the first of equals; with none, it has no move.
pub fn fleeing_movement(x: i32, y: i32, pheromones: &PheromoneGrid, config: &SimConfig) -> (r: Option<(i32, i32)>)
    requires
        pheromones.wf(),
    ensures
        ({
            let n = config.combat.max_colonies_scan as int;
            let here = danger_sum(pheromones, x as int, y as int, n);
            &&& r is None ==> forall|k: int| 0 <= k < 8 ==> #[trigger] neighbour_danger(pheromones, x as int, y as int, n, k) >= here
            &&& r matches Some(d) ==> exists|k: int|
                0 <= k < 8 && #[trigger] neighbour_offset(k) == (d.0 as int, d.1 as int)
                && neighbour_danger(pheromones, x as int, y as int, n, k) < here
                && (forall|j: int| 0 <= j < 8 ==> neighbour_danger(pheromones, x as int, y as int, n, j)
                    >= neighbour_danger(pheromones, x as int, y as int, n, k))
                && (forall|j: int| 0 <= j < k ==> neighbour_danger(pheromones, x as int, y as int, n, j)
                    > neighbour_danger(pheromones, x as int, y as int, n, k))
        }),
{
    let ghost n = config.combat.max_colonies_scan as int;
    let scan = config.combat.max_colonies_scan;
    let current = total_danger(pheromones, x, y, 0, 0, scan);
    let mut best: Option<(i32, i32)> = None;
    let ghost mut best_k: int = -1;
    let mut min_danger: u64 = current;
    let mut k: usize = 0;
    while k < 8
        invariant
            pheromones.wf(),
            0 <= k <= 8,
            n == scan as int,
            current == danger_sum(pheromones, x as int, y as int, n),
            best is None ==> best_k == -1 && min_danger == current,
            best matches Some(d) ==> 0 <= best_k < k && neighbour_offset(best_k) == (d.0 as int, d.1 as int)
                && min_danger == neighbour_danger(pheromones, x as int, y as int, n, best_k) && min_danger < current
                && (forall|j: int| 0 <= j < best_k ==> neighbour_danger(pheromones, x as int, y as int, n, j) > min_danger),
            forall|j: int| 0 <= j < k ==> #[trigger] neighbour_danger(pheromones, x as int, y as int, n, j) >= min_danger,
        decreases 8 - k,
    {
        let (dx, dy) = neighbour_offset_exec(k);
        let danger = total_danger(pheromones, x, y, dx, dy, scan);
        if danger < min_danger {
            min_danger = danger;
            best = Some((dx, dy));
            proof {
                best_k = k as int;
            }
        }
        k = k + 1;
    }
    best
}

} // verus!
