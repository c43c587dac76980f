use vstd::prelude::*;

use crate::aphid::{aphid_system, spawn_aphids, Aphid};
use crate::colony::ColonyState;
use crate::combat::{combat_system, flee_step, flee_system, max_danger, only_combat_changed, soldier_ai_system, soldier_step};
use crate::config::SimConfig;
use crate::dig::{decided, dig_ai_system, dig_system, only_dug};
use crate::food::{check_deposit, deposit_step, food_regrow_system, foraging_system, picked_up, spawn_food_sources, FoodSource};
use crate::hazard::{cave_in_system, cleanup_dead, only_soil_moved};
use crate::lifecycle::{ensure_queen_ages, life_step, lifecycle_system, lived};
use crate::movement::{forced_step, moved_or_stayed, movement_system};
use crate::pheromone::{decay_rate, decayed, pheromone_decay_system, pheromone_deposit_system, PheromoneGrid, PheromoneType};
use crate::spatial::SpatialGrid;
use crate::spawn::spawn_colonies;
use crate::terrain::Terrain;
use crate::water::{
    calculate_pressure, drown_step, drowning_system, flee_flood_step, evaporation_system, flee_flood_system, rain_system, spawn_water_sources,
    water_flow_system, RainEvent, WaterGrid,
};
use crate::agent::{Agent, AntRole, AntState};
use crate::world::AgentStore;

verus! {

/// Size in tiles of a bucket of the spatial index.
pub const SPATIAL_CELL_SIZE: i32 = 8;

/// Why a simulation cannot be set up.
#[derive(Clone, Copy, Debug, PartialEq, Eq, Structural)]
pub enum SetupError {
    /// No colony is configured.
    NoColonies,
    /// More colonies are configured than colony ids can name.
    TooManyColonies,
    /// The world's grids do not fit in memory addresses.
    WorldTooLarge,
}

/// What `Simulation::new` checks of a configuration and a world, in order.
pub open spec fn setup_error(terrain: &Terrain, config: SimConfig) -> Option<SetupError> {
    if config.spawn.num_colonies == 0 {
        Some(SetupError::NoColonies)
    } else if config.spawn.num_colonies > 256 {
        Some(SetupError::TooManyColonies)
    } else if terrain.width * terrain.height * config.spawn.num_colonies * 3 > usize::MAX || (terrain.width
        / 8 + 1) * (terrain.height / 8 + 1) > usize::MAX {
        Some(SetupError::WorldTooLarge)
    } else {
        None
    }
}

/// Every agent belongs to one of the first `n` colonies.
pub open spec fn colony_ids_below(m: Map<u64, Agent>, n: int) -> bool {
    forall|k: u64| #[trigger] m.contains_key(k) ==> (m[k].colony_id as int) < n
}

/// A store whose agents keep their keys and colonies keeps every colony id below `n`.
pub proof fn lemma_colony_ids_kept(before: Map<u64, Agent>, after: Map<u64, Agent>, n: int)
    requires
        colony_ids_below(before, n),
        forall|k: u64| #[trigger] after.contains_key(k) ==> before.contains_key(k) && after[k].colony_id == before[k].colony_id,
    ensures
        colony_ids_below(after, n),
{
}

/// Workers took their state decisions (each on some roll).
pub open spec fn agents_decided(a: Map<u64, Agent>, b: Map<u64, Agent>, t: &Terrain, cfg: SimConfig) -> bool {
    &&& b.dom() == a.dom()
    &&& forall|k: u64| a.contains_key(k) ==> decided(a[k], #[trigger] b[k], t, cfg.movement)
}

/// Soldiers responded to the danger scent of `g`.
pub open spec fn soldiers_responded(a: Map<u64, Agent>, b: Map<u64, Agent>, g: &PheromoneGrid, cfg: SimConfig) -> bool {
    &&& b.dom() == a.dom()
    &&& forall|k: u64|
        a.contains_key(k) ==> #[trigger] b[k] == soldier_step(
            a[k],
            g.value(a[k].x as int, a[k].y as int, a[k].colony_id as int, PheromoneType::Danger),
            cfg.combat,
        )
}

/// Workers fled, or stopped fleeing, the danger scent of `g`.
pub open spec fn workers_fled(a: Map<u64, Agent>, b: Map<u64, Agent>, g: &PheromoneGrid, cfg: SimConfig) -> bool {
    &&& b.dom() == a.dom()
    &&& forall|k: u64|
        a.contains_key(k) ==> #[trigger] b[k] == flee_step(
            a[k],
            max_danger(g, a[k].x as int, a[k].y as int, cfg.combat.max_colonies_scan as int),
            cfg.combat,
        )
}

/// Agents moved by their state's rule onto passable tiles.
pub open spec fn agents_moved(a: Map<u64, Agent>, b: Map<u64, Agent>, t: &Terrain, cols: Seq<ColonyState>) -> bool {
    &&& b.dom() == a.dom()
    &&& forall|k: u64| a.contains_key(k) ==> moved_or_stayed(a[k], #[trigger] b[k], t)
    &&& forall|k: u64|
        a.contains_key(k) ==> (#[trigger] forced_step(a[k], t, cols) matches Some(d) ==> b[k] == a[k].with_position(
            (a[k].x + d.0) as i32,
            (a[k].y + d.1) as i32,
        ))
}

/// Wandering workers may have picked up food; no one else changed.
pub open spec fn agents_foraged(a: Map<u64, Agent>, b: Map<u64, Agent>, cfg: SimConfig) -> bool {
    &&& b.dom() == a.dom()
    &&& forall|k: u64|
        a.contains_key(k) ==> #[trigger] b[k] == a[k] || (a[k].role == AntRole::Worker && a[k].state == AntState::Wandering
            && exists|t: u8| 0 < t <= cfg.food.food_per_pickup && b[k] == #[trigger] picked_up(a[k], t))
}

/// Carriers at home dropped their load.
pub open spec fn agents_unloaded(a: Map<u64, Agent>, b: Map<u64, Agent>, cols: Seq<ColonyState>, cfg: SimConfig) -> bool {
    &&& b.dom() == a.dom()
    &&& forall|k: u64| a.contains_key(k) ==> #[trigger] b[k] == deposit_step(a[k], cols, cfg.food)
}

/// Only combat statistics and death marks changed.
pub open spec fn agents_fought(a: Map<u64, Agent>, b: Map<u64, Agent>) -> bool {
    &&& b.dom() == a.dom()
    &&& forall|k: u64| a.contains_key(k) ==> only_combat_changed(a[k], #[trigger] b[k])
}

/// Every agent lived one tick; new agents were laid.
pub open spec fn agents_lived(a: Map<u64, Agent>, b: Map<u64, Agent>, cfg: SimConfig) -> bool {
    &&& a.dom().subset_of(b.dom())
    &&& forall|k: u64| a.contains_key(k) ==> lived(a[k], #[trigger] b[k], cfg.lifecycle)
}

/// Agents stayed, or were crushed.
pub open spec fn agents_crushed(a: Map<u64, Agent>, b: Map<u64, Agent>) -> bool {
    &&& b.dom() == a.dom()
    &&& forall|k: u64| a.contains_key(k) ==> #[trigger] b[k] == a[k] || b[k] == a[k].marked_dead()
}

/// Agents took one tick of submersion, then fled rising water.
pub open spec fn agents_wet(a: Map<u64, Agent>, b: Map<u64, Agent>, c: Map<u64, Agent>, w: &WaterGrid, cfg: SimConfig) -> bool {
    &&& b.dom() == a.dom()
    &&& forall|k: u64|
        a.contains_key(k) ==> #[trigger] b[k] == drown_step(a[k], w.depth_at(a[k].x as int, a[k].y as int), cfg.water)
    &&& c.dom() == b.dom()
    &&& forall|k: u64|
        b.contains_key(k) ==> #[trigger] c[k] == flee_flood_step(b[k], w.depth_at(b[k].x as int, b[k].y as int), cfg.water)
}

/// The dead were removed and nothing else changed.
pub open spec fn agents_swept(a: Map<u64, Agent>, b: Map<u64, Agent>) -> bool {
    &&& forall|k: u64| #[trigger] b.contains_key(k) <==> a.contains_key(k) && !a[k].dead
    &&& forall|k: u64| #[trigger] b.contains_key(k) ==> b[k] == a[k]
}

/// The scent field after combat, decay, diffusion and deposits: only danger rose in
/// combat; every value then decayed; the field diffused; agents laid scent.
pub open spec fn scent_ticked(
    q0: &PheromoneGrid,
    q1: &PheromoneGrid,
    q2: &PheromoneGrid,
    q3: &PheromoneGrid,
    q4: &PheromoneGrid,
    m: Map<u64, Agent>,
    cols: Seq<ColonyState>,
) -> bool {
    &&& forall|i: int| 0 <= i < q0.data@.len() ==> #[trigger] q1.data@[i] >= q0.data@[i]
    &&& forall|i: int| 0 <= i < q0.data@.len() && i % 3 != 2 ==> #[trigger] q1.data@[i] == q0.data@[i]
    &&& forall|i: int| 0 <= i < q1.data@.len() ==> #[trigger] q2.data@[i] == decayed(q1.data@[i], decay_rate(i % 3))
    &&& forall|x: int, y: int, c: int, t: PheromoneType|
        q2.in_bounds(x, y) && 0 <= c < q2.max_colonies ==> #[trigger] q3.value(x, y, c, t) == q2.diffused(x, y, c, t)
    &&& exists|ids: Seq<u64>|
        ids.no_duplicates() && #[trigger] ids.to_set() == m.dom() && q4.data@ == q3.deposited(
            q3.data@,
            ids.map_values(|k: u64| m[k]),
            cols,
        )
}

/// One tick's phases, in order, over the agent maps `m`, scent fields `q`, terrain
/// after digging `t1` and colony records `c` between them.
pub open spec fn phases(
    s0: Simulation,
    s: Simulation,
    m: Seq<Map<u64, Agent>>,
    q: Seq<PheromoneGrid>,
    t1: Terrain,
    c: Seq<Seq<ColonyState>>,
) -> bool {
    &&& m.len() == 12 && q.len() == 3 && c.len() == 2
    &&& m[0] == s0.store@
    &&& agents_decided(m[0], m[1], &s0.terrain, s0.config)
    &&& soldiers_responded(m[1], m[2], &s0.pheromones, s0.config)
    &&& workers_fled(m[2], m[3], &s0.pheromones, s0.config)
    &&& agents_moved(m[3], m[4], &s0.terrain, s0.colonies@)
    &&& only_dug(&s0.terrain, &t1)
    &&& agents_foraged(m[4], m[5], s0.config)
    &&& agents_unloaded(m[5], m[6], c[0], s0.config)
    &&& agents_fought(m[6], m[7])
    &&& scent_ticked(&s0.pheromones, &q[0], &q[1], &q[2], &s.pheromones, m[7], c[1])
    &&& agents_lived(m[7], m[8], s0.config)
    &&& (if s0.config.hazard.cave_in_interval > 0 && s.tick % s0.config.hazard.cave_in_interval == 0 {
        agents_crushed(m[8], m[9]) && only_soil_moved(&t1, &s.terrain)
    } else {
        m[9] == m[8] && s.terrain == t1
    })
    &&& agents_wet(m[9], m[10], m[11], &s.water, s0.config)
    &&& agents_swept(m[11], s.store@)
}

/// The whole simulated world, advanced one tick at a time.
pub struct Simulation {
    pub store: AgentStore,
    pub terrain: Terrain,
    pub colonies: Vec<ColonyState>,
    pub pheromones: PheromoneGrid,
    pub water: WaterGrid,
    pub spatial_grid: SpatialGrid,
    pub foods: Vec<FoodSource>,
    pub aphids: Vec<Aphid>,
    pub rain_event: Option<RainEvent>,
    pub tick: u64,
    pub config: SimConfig,
}

impl Simulation {
    pub open spec fn wf(&self) -> bool {
        &&& self.terrain.wf()
        &&& self.pheromones.wf()
        &&& self.water.wf()
        &&& self.spatial_grid.wf()
        &&& self.pheromones.max_colonies == self.config.spawn.num_colonies
        &&& self.colonies@.len() <= self.config.spawn.num_colonies
        &&& colony_ids_below(self.store@, self.config.spawn.num_colonies as int)
        &&& forall|c: int| 0 <= c < self.colonies@.len() ==> (#[trigger] self.colonies@[c]).food_fraction < 1000
    }

    /// An empty world on the given terrain: no agents, no scent, no water. The
    /// configuration is checked first and refused as `setup_error` says.
    pub fn new(terrain: Terrain, config: SimConfig) -> (r: Result<Simulation, SetupError>)
        requires
            terrain.wf(),
        ensures
            match r {
                Ok(sim) => setup_error(&terrain, config) is None && sim.wf() && sim.tick == 0 && sim.store@.len() == 0
                    && sim.colonies@.len() == 0 && sim.pheromones.max_colonies == config.spawn.num_colonies
                    && sim.pheromones.total() == 0 && sim.water.total() == 0 && sim.terrain == terrain,
                Err(e) => setup_error(&terrain, config) == Some(e),
            },
    {
        let n = config.spawn.num_colonies;
        if n == 0 {
            return Err(SetupError::NoColonies);
        }
        if n > 256 {
            return Err(SetupError::TooManyColonies);
        }
        let w = terrain.width;
        let h = terrain.height;
        proof {
            assert(w * h <= 0xFFFF_FFFF_FFFF_FFFFu128 * 0xFFFF_FFFF_FFFF_FFFFu128) by (nonlinear_arith)
                requires
                    w <= 0xFFFF_FFFF_FFFF_FFFFu128,
                    h <= 0xFFFF_FFFF_FFFF_FFFFu128,
            ;
            assert((w / 8 + 1) * (h / 8 + 1) <= 0xFFFF_FFFF_FFFF_FFFFu128 * 0xFFFF_FFFF_FFFF_FFFFu128) by (nonlinear_arith)
                requires
                    w / 8 + 1 <= 0xFFFF_FFFF_FFFF_FFFFu128,
                    h / 8 + 1 <= 0xFFFF_FFFF_FFFF_FFFFu128,
            ;
        }
        let cells: u128 = w as u128 * h as u128;
        let buckets: u128 = (w as u128 / 8 + 1) * (h as u128 / 8 + 1);
        if cells > usize::MAX as u128 {
            proof {
                assert(w * h <= w * h * n * 3) by (nonlinear_arith)
                    requires
                        n >= 1,
                ;
            }
            return Err(SetupError::WorldTooLarge);
        }
        proof {
            assert(cells * n * 3 <= 0xFFFF_FFFF_FFFF_FFFFu128 * 256 * 3) by (nonlinear_arith)
                requires
                    cells <= 0xFFFF_FFFF_FFFF_FFFFu128,
                    n <= 256,
            ;
        }
        if cells * n as u128 * 3 > usize::MAX as u128 || buckets > usize::MAX as u128 {
            return Err(SetupError::WorldTooLarge);
        }
        proof {
            assert(w * h <= w * h * n * 3) by (nonlinear_arith)
                requires
                    n >= 1,
            ;
        }
        let store = AgentStore::new();
        let pheromones = PheromoneGrid::new(w, h, n);
        let water = WaterGrid::new(w, h, config.water.max_depth);
        let spatial_grid = SpatialGrid::new(w, h, SPATIAL_CELL_SIZE);
        proof {
            assert(store@.dom() =~= Set::<u64>::empty());
        }
        Ok(
            Simulation {
                store,
                terrain,
                colonies: Vec::new(),
                pheromones,
                water,
                spatial_grid,
                foods: Vec::new(),
                aphids: Vec::new(),
                rain_event: None,
                tick: 0,
                config,
            },
        )
    }

    /// Founds the colonies and places food, aphids and the first pockets of water.
    pub fn populate(&mut self)
        requires
            old(self).wf(),
        ensures
            final(self).wf(),
            final(self).colonies@.len() <= final(self).pheromones.max_colonies,
    {
        let colonies = spawn_colonies(&mut self.store, &self.terrain, &self.config);
        self.colonies = colonies;
        self.foods = spawn_food_sources(&self.terrain, self.config.food.num_food_sources, &self.config);
        self.aphids = spawn_aphids(&self.terrain, self.config.spawn.num_aphids, &self.config);
        spawn_water_sources(&mut self.water, &self.terrain, self.config.water.num_water_sources);
        ensure_queen_ages(&mut self.store, &self.config);
    }

    /// Rebuilds the spatial index from the agents' current positions.
    pub fn rebuild_spatial_grid(&mut self)
        requires
            old(self).spatial_grid.wf(),
        ensures
            final(self).spatial_grid.wf(),
            *final(self) == (Simulation { spatial_grid: final(self).spatial_grid, ..*old(self) }),
            final(self).spatial_grid.cell_size == old(self).spatial_grid.cell_size,
            forall|k: u64|
                #[trigger] old(self).store@.contains_key(k) && final(self).spatial_grid.covers(
                    old(self).store@[k].x as int,
                    old(self).store@[k].y as int,
                ) ==> final(self).spatial_grid.holds(
                    (k, old(self).store@[k].x, old(self).store@[k].y, old(self).store@[k].colony_id),
                ),
    {
        self.spatial_grid.clear();
        let ids = self.store.ids();
        let mut i: usize = 0;
        while i < ids.len()
            invariant
                self.spatial_grid.wf(),
                *self == (Simulation { spatial_grid: self.spatial_grid, ..*old(self) }),
                self.spatial_grid.width == old(self).spatial_grid.width,
                self.spatial_grid.height == old(self).spatial_grid.height,
                self.spatial_grid.cell_size == old(self).spatial_grid.cell_size,
                0 <= i <= ids@.len(),
                forall|j: int| 0 <= j < ids@.len() ==> self.store@.contains_key(#[trigger] ids@[j]),
                forall|j: int|
                    0 <= j < i && self.spatial_grid.covers(self.store@[ids@[j]].x as int, self.store@[ids@[j]].y as int)
                        ==> self.spatial_grid.holds(
                        (#[trigger] ids@[j], self.store@[ids@[j]].x, self.store@[ids@[j]].y, self.store@[ids@[j]].colony_id),
                    ),
            decreases ids@.len() - i,
        {
            let id = ids[i];
            let a = self.store.get(id).unwrap();
            self.spatial_grid.insert(id, a.x, a.y, a.colony_id);
            i = i + 1;
        }
        proof {
            assert forall|k: u64|
                #[trigger] old(self).store@.contains_key(k) && self.spatial_grid.covers(
                    old(self).store@[k].x as int,
                    old(self).store@[k].y as int,
                ) implies self.spatial_grid.holds(
                (k, old(self).store@[k].x, old(self).store@[k].y, old(self).store@[k].colony_id),
            ) by {
                let j = crate::world::lemma_listed_index(ids@, k);
            }
        }
    }

    /// One simulated tick, every phase in its fixed order: index rebuild; state
    /// decisions; movement; digging, foraging, combat and farming; scent decay,
    /// diffusion and deposit; life cycle and regrowth; collapse, water and rain on
    /// their cadences; drowning; and last the removal of the dead.
    pub fn step(&mut self)
        requires
            old(self).wf(),
            old(self).tick < u64::MAX,
        ensures
            final(self).wf(),
            final(self).tick == old(self).tick + 1,
            forall|k: u64| #[trigger] final(self).store@.contains_key(k) ==> !final(self).store@[k].dead,
            final(self).colonies@.len() == old(self).colonies@.len(),
            final(self).terrain.width == old(self).terrain.width,
            final(self).terrain.height == old(self).terrain.height,
            final(self).config == old(self).config,
            exists|m: Seq<Map<u64, Agent>>, q: Seq<PheromoneGrid>, t1: Terrain, c: Seq<Seq<ColonyState>>|
                #[trigger] phases(*old(self), *final(self), m, q, t1, c),
    {
        self.tick = self.tick + 1;
        let tick = self.tick;
        self.rebuild_spatial_grid();
        let ghost before_ids = self.store@;
        dig_ai_system(&mut self.store, &self.terrain, &self.config);
        proof {
            lemma_colony_ids_kept(before_ids, self.store@, self.config.spawn.num_colonies as int);
        }
        let ghost m1 = self.store@;
        let ghost before_ids = self.store@;
        soldier_ai_system(&mut self.store, &self.pheromones, &self.config);
        proof {
            lemma_colony_ids_kept(before_ids, self.store@, self.config.spawn.num_colonies as int);
        }
        let ghost m2 = self.store@;
        let ghost before_ids = self.store@;
        flee_system(&mut self.store, &self.pheromones, &self.config);
        proof {
            lemma_colony_ids_kept(before_ids, self.store@, self.config.spawn.num_colonies as int);
        }
        let ghost m3 = self.store@;
        let ghost before_ids = self.store@;
        movement_system(&mut self.store, &self.terrain, &self.pheromones, &self.colonies, &self.config);
        proof {
            lemma_colony_ids_kept(before_ids, self.store@, self.config.spawn.num_colonies as int);
        }
        dig_system(&self.store, &mut self.terrain, &self.config);
        let ghost m4 = self.store@;
        let ghost t1 = self.terrain;
        let ghost before_ids = self.store@;
        foraging_system(&mut self.store, &mut self.colonies, &mut self.foods, &self.config);
        proof {
            lemma_colony_ids_kept(before_ids, self.store@, self.config.spawn.num_colonies as int);
        }
        let ghost m5 = self.store@;
        let ghost c0 = self.colonies@;
        let ghost before_ids = self.store@;
        check_deposit(&mut self.store, &self.colonies, &self.config);
        proof {
            lemma_colony_ids_kept(before_ids, self.store@, self.config.spawn.num_colonies as int);
        }
        let ghost m6 = self.store@;
        let ghost before_ids = self.store@;
        combat_system(&mut self.store, &mut self.pheromones, tick, &self.spatial_grid, &self.config);
        proof {
            lemma_colony_ids_kept(before_ids, self.store@, self.config.spawn.num_colonies as int);
        }
        let ghost m7 = self.store@;
        let ghost q0 = self.pheromones;
        aphid_system(&self.store, &mut self.colonies, &mut self.aphids, &self.config);
        pheromone_decay_system(&mut self.pheromones);
        let ghost q1 = self.pheromones;
        self.pheromones.diffuse();
        let ghost q2 = self.pheromones;
        let ghost c1 = self.colonies@;
        pheromone_deposit_system(&self.store, &mut self.pheromones, &self.colonies);
        let ghost before_ids = self.store@;
        let ghost colonies_before = self.colonies@.len();
        lifecycle_system(&mut self.store, &mut self.colonies, tick, &self.config);
        proof {
            assert(colony_ids_below(self.store@, self.config.spawn.num_colonies as int)) by {
                assert forall|k: u64| #[trigger] self.store@.contains_key(k) implies (self.store@[k].colony_id as int) < self.config.spawn.num_colonies by {
                    if before_ids.contains_key(k) {
                        assert(lived(before_ids[k], self.store@[k], self.config.lifecycle));
                        let r0 = choose|roll: u8| self.store@[k] == life_step(before_ids[k], self.config.lifecycle, roll);
                    } else {
                        assert((self.store@[k].colony_id as int) < colonies_before);
                    }
                }
            }
        }
        let ghost m8 = self.store@;
        food_regrow_system(&mut self.foods, tick, &self.config);
        if self.config.hazard.cave_in_interval > 0 && tick % self.config.hazard.cave_in_interval == 0 {
            let ghost before_ids = self.store@;
            cave_in_system(&mut self.terrain, &mut self.store, &self.config);
            proof {
                lemma_colony_ids_kept(before_ids, self.store@, self.config.spawn.num_colonies as int);
            }
        }
        let ghost m9 = self.store@;
        if self.config.water.water_flow_interval > 0 && tick % self.config.water.water_flow_interval == 0 {
            calculate_pressure(&mut self.water, &self.terrain);
            water_flow_system(&mut self.water, &self.terrain);
        }
        if self.config.water.evaporation_interval > 0 && tick % self.config.water.evaporation_interval == 0 {
            evaporation_system(&mut self.water, &self.terrain, &self.config);
        }
        rain_system(&mut self.water, &self.terrain, &mut self.rain_event, &self.config);
        let ghost before_ids = self.store@;
        drowning_system(&mut self.store, &self.water, &self.config);
        proof {
            lemma_colony_ids_kept(before_ids, self.store@, self.config.spawn.num_colonies as int);
        }
        let ghost m10 = self.store@;
        let ghost before_ids = self.store@;
        flee_flood_system(&mut self.store, &self.water, &self.config);
        proof {
            lemma_colony_ids_kept(before_ids, self.store@, self.config.spawn.num_colonies as int);
        }
        let ghost m11 = self.store@;
        let ghost before_ids = self.store@;
        cleanup_dead(&mut self.store);
        proof {
            lemma_colony_ids_kept(before_ids, self.store@, self.config.spawn.num_colonies as int);
        }
        proof {
            assert(phases(
                *old(self),
                *self,
                seq![old(self).store@, m1, m2, m3, m4, m5, m6, m7, m8, m9, m10, m11],
                seq![q0, q1, q2],
                t1,
                seq![c0, c1],
            ));
        }
    }
}

} // verus!
