use antcolony::agent::{Age, Agent, AntRole, AntState};
use antcolony::colony::{ColonyState, PopulationCount};
use antcolony::combat::{apply_damage, calculate_damage, combat_pairs, Combatant};
use antcolony::config::{CombatConfig, HazardConfig, LifecycleConfig, SimConfig, WaterConfig};
use antcolony::food::{foraging_system, FoodSource};
use antcolony::hazard::{cleanup_dead, collapse_chance, count_open_neighbors, landing_row, tile_chance};
use antcolony::lifecycle::life_update;
use antcolony::pheromone::{adaptive_deposit_value, PheromoneGrid, PheromoneType, MAX_PHEROMONE};
use antcolony::sim::{SetupError, Simulation};
use antcolony::spatial::SpatialGrid;
use antcolony::terrain::{Terrain, TerrainType};
use antcolony::water::{calculate_pressure, drowning_system, water_flow_system, WaterCell, WaterGrid};
use antcolony::world::AgentStore;

fn total_depth(w: &WaterGrid) -> u64 {
    let mut sum = 0u64;
    for y in 0..w.height as i32 {
        for x in 0..w.width as i32 {
            sum += w.depth(x, y) as u64;
        }
    }
    sum
}

fn scent_total(g: &PheromoneGrid) -> u64 {
    g.data.iter().map(|v| *v as u64).sum()
}

#[test]
fn foraging_worker_on_node_picks_up_one_unit() {
    let config = SimConfig::default();
    let mut store = AgentStore::new();
    let worker = Agent::new(5, 5, 0, AntRole::Worker);
    let id = store.spawn(worker).unwrap();
    let mut colonies = vec![ColonyState::new(0, 40, 5, 100)];
    let mut foods = vec![FoodSource { x: 5, y: 5, amount: 100, regrow_rate: 1 }];
    foraging_system(&mut store, &mut colonies, &mut foods, &config);
    let after = store.get(id).unwrap();
    assert_eq!(after.state, AntState::Carrying);
    assert_eq!(after.carrying, Some(config.food.food_per_pickup));
    assert_eq!(foods[0].amount, 100 - config.food.food_per_pickup as u16);
    assert_eq!(colonies[0].food_stored, 100);
}

#[test]
fn drowning_at_depth_seven_kills_on_threshold_tick() {
    let mut config = SimConfig::default();
    config.water.drown_threshold_7 = 3;
    let mut water = WaterGrid::new(4, 4, 7);
    water.add_water(1, 1, 7);
    let mut store = AgentStore::new();
    let id = store.spawn(Agent::new(1, 1, 0, AntRole::Worker)).unwrap();
    for _ in 0..2 {
        drowning_system(&mut store, &water, &config);
        assert!(!store.get(id).unwrap().dead);
    }
    drowning_system(&mut store, &water, &config);
    let a = store.get(id).unwrap();
    assert!(a.dead);
    assert_eq!(a.drowning, Some(3));
}

#[test]
fn default_threshold_seven_drowns_on_first_tick() {
    let config = SimConfig::default();
    let mut water = WaterGrid::new(3, 3, 7);
    water.add_water(0, 0, 7);
    let mut store = AgentStore::new();
    let id = store.spawn(Agent::new(0, 0, 0, AntRole::Worker)).unwrap();
    drowning_system(&mut store, &water, &config);
    assert!(store.get(id).unwrap().dead);
}

#[test]
fn leaving_deep_water_resets_the_counter() {
    let config = SimConfig::default();
    let mut water = WaterGrid::new(3, 3, 7);
    water.add_water(0, 0, 5);
    let mut store = AgentStore::new();
    let id = store.spawn(Agent::new(0, 0, 0, AntRole::Worker)).unwrap();
    drowning_system(&mut store, &water, &config);
    assert_eq!(store.get(id).unwrap().drowning, Some(1));
    water.remove_water(0, 0, 5);
    drowning_system(&mut store, &water, &config);
    assert_eq!(store.get(id).unwrap().drowning, None);
}

#[test]
fn egg_hatches_one_tick_after_reaching_its_last_tick() {
    let cfg = LifecycleConfig::default();
    let mut egg = Agent::new(0, 0, 0, AntRole::Egg);
    egg.age = Some(Age { ticks: cfg.egg_hatch_time - 1, max_ticks: cfg.egg_hatch_time });
    let larva = life_update(egg, &cfg, 0);
    assert_eq!(larva.role, AntRole::Larvae);
    assert_eq!(larva.age, Some(Age { ticks: 0, max_ticks: cfg.larvae_mature_time }));
    let mut young = egg;
    young.age = Some(Age { ticks: cfg.egg_hatch_time - 2, max_ticks: cfg.egg_hatch_time });
    assert_eq!(life_update(young, &cfg, 0).role, AntRole::Egg);
}

#[test]
fn larva_matures_by_roll() {
    let cfg = LifecycleConfig::default();
    let mut larva = Agent::new(0, 0, 0, AntRole::Larvae);
    larva.age = Some(Age { ticks: cfg.larvae_mature_time - 1, max_ticks: cfg.larvae_mature_time });
    let worker = life_update(larva, &cfg, 0);
    assert_eq!(worker.role, AntRole::Worker);
    assert_eq!(worker.state, AntState::Wandering);
    assert_eq!(worker.age, Some(Age { ticks: 0, max_ticks: cfg.worker_lifespan }));
    let soldier = life_update(larva, &cfg, 250);
    assert_eq!(soldier.role, AntRole::Soldier);
    assert_eq!(soldier.age, Some(Age { ticks: 0, max_ticks: cfg.soldier_lifespan }));
}

#[test]
fn adult_past_lifespan_is_marked_dead() {
    let cfg = LifecycleConfig::default();
    let mut old_worker = Agent::new(0, 0, 0, AntRole::Worker);
    old_worker.age = Some(Age { ticks: 10, max_ticks: 10 });
    assert!(life_update(old_worker, &cfg, 0).dead);
    old_worker.age = Some(Age { ticks: 9, max_ticks: 10 });
    let aged = life_update(old_worker, &cfg, 0);
    assert!(!aged.dead);
    assert_eq!(aged.age, Some(Age { ticks: 10, max_ticks: 10 }));
}

/// A soil tile at (2, 2) in a 5x5 grid of rock, with the given neighbours opened.
fn soil_with_open(open: &[(i32, i32)]) -> Terrain {
    let mut t = Terrain::filled(5, 5, TerrainType::Solid);
    t.set(2, 2, TerrainType::Soil);
    for (x, y) in open {
        t.set(*x, *y, TerrainType::Air);
    }
    t
}

#[test]
fn soil_with_two_open_neighbours_never_collapses() {
    let cfg = HazardConfig::default();
    let t = soil_with_open(&[(2, 3), (1, 3)]);
    assert_eq!(count_open_neighbors(&t, 2, 2), 2);
    assert_eq!(tile_chance(&t, 2, 2, &cfg), 0);
}

#[test]
fn soil_with_six_open_neighbours_has_top_chance() {
    let cfg = HazardConfig::default();
    let t = soil_with_open(&[(1, 1), (2, 1), (3, 1), (1, 2), (3, 2), (2, 3)]);
    assert_eq!(count_open_neighbors(&t, 2, 2), 6);
    assert_eq!(tile_chance(&t, 2, 2, &cfg), cfg.collapse_chance_6plus);
    assert_eq!(tile_chance(&t, 2, 2, &cfg), 25);
}

#[test]
fn collapse_table_values() {
    let cfg = HazardConfig::default();
    assert_eq!(collapse_chance(3, 0, &cfg), 1);
    assert_eq!(collapse_chance(4, 0, &cfg), 3);
    assert_eq!(collapse_chance(5, 0, &cfg), 10);
    assert_eq!(collapse_chance(8, 0, &cfg), 25);
    assert_eq!(collapse_chance(5, 2, &cfg), 1);
    assert_eq!(collapse_chance(1, 2, &cfg), 0);
}

#[test]
fn tunnel_next_to_soil_prevents_collapse() {
    let cfg = HazardConfig::default();
    let mut t = soil_with_open(&[(1, 1), (2, 1), (3, 1), (1, 3), (3, 3), (2, 3)]);
    t.set(1, 2, TerrainType::Tunnel);
    assert_eq!(tile_chance(&t, 2, 2, &cfg), 0);
}

#[test]
fn falling_soil_lands_on_last_air_tile() {
    let mut t = Terrain::filled(3, 6, TerrainType::Air);
    t.set(1, 5, TerrainType::Solid);
    t.set(1, 1, TerrainType::Soil);
    assert_eq!(landing_row(&t, 1, 1), 4);
    t.set(1, 2, TerrainType::Tunnel);
    assert_eq!(landing_row(&t, 1, 1), 1);
}

#[test]
fn water_flow_keeps_total_depth() {
    let terrain = Terrain::filled(6, 6, TerrainType::Air);
    let mut water = WaterGrid::new(6, 6, 7);
    water.add_water(2, 0, 7);
    water.add_water(3, 1, 5);
    water.add_water(0, 5, 3);
    let before = total_depth(&water);
    for _ in 0..5 {
        calculate_pressure(&mut water, &terrain);
        water_flow_system(&mut water, &terrain);
        assert_eq!(total_depth(&water), before);
    }
    assert_eq!(before, 15);
}

#[test]
fn water_falls_down_first() {
    let terrain = Terrain::filled(3, 3, TerrainType::Air);
    let mut water = WaterGrid::new(3, 3, 7);
    water.add_water(1, 0, 1);
    water_flow_system(&mut water, &terrain);
    assert_eq!(water.depth(1, 0), 0);
    assert!(water.depth(1, 1) + water.depth(1, 2) == 1);
}

#[test]
fn pressure_sums_connected_column() {
    let terrain = Terrain::filled(2, 4, TerrainType::Air);
    let mut water = WaterGrid::new(2, 4, 7);
    water.add_water(0, 1, 2);
    water.add_water(0, 2, 3);
    water.add_water(0, 3, 4);
    calculate_pressure(&mut water, &terrain);
    assert_eq!(water.get(0, 1).pressure, 2);
    assert_eq!(water.get(0, 2).pressure, 5);
    assert_eq!(water.get(0, 3).pressure, 7);
    assert_eq!(water.get(1, 3).pressure, 0);
}

#[test]
fn transfer_moves_exactly_one_unit() {
    let mut water = WaterGrid::new(3, 3, 7);
    water.add_water(0, 0, 4);
    water.transfer(0, 0, 1, 0, 1);
    assert_eq!(water.depth(0, 0), 3);
    assert_eq!(water.depth(1, 0), 1);
    assert_eq!(water.get(0, 0).flow_dir, (1, 0));
    water.transfer(0, 0, 5, 0, 1);
    assert_eq!(water.depth(0, 0), 3);
}

#[test]
fn water_reads_outside_grid_are_dry() {
    let mut water = WaterGrid::new(2, 2, 7);
    water.add_water(-1, 0, 3);
    assert_eq!(water.depth(-1, 0), 0);
    assert_eq!(water.get(5, 5), WaterCell::default());
    assert!(water.get_mut(2, 0).is_none());
    assert_eq!(WaterCell { depth: 6, ..WaterCell::default() }.is_passable(), false);
    assert!(WaterCell { depth: 4, ..WaterCell::default() }.is_dangerous());
    assert_eq!(WaterCell { depth: 3, ..WaterCell::default() }.movement_penalty(), 75);
}

#[test]
fn add_water_caps_at_max_depth() {
    let mut water = WaterGrid::new(2, 2, 7);
    water.add_water(0, 0, 5);
    water.add_water(0, 0, 5);
    assert_eq!(water.depth(0, 0), 7);
}

#[test]
fn scent_stays_within_bounds_through_a_tick_sequence() {
    let mut g = PheromoneGrid::new(5, 5, 2);
    for _ in 0..30 {
        g.deposit(2, 2, 0, PheromoneType::Food, 400_000_000);
        g.deposit_adaptive(2, 3, 1, PheromoneType::Home, 900_000_000);
        g.decay_all();
        g.diffuse();
    }
    assert!(g.data.iter().all(|v| *v <= MAX_PHEROMONE));
    assert!(g.get(2, 2, 0, PheromoneType::Food) > 0);
}

#[test]
fn diffusion_keeps_mass_below_the_cap() {
    let mut g = PheromoneGrid::new(6, 6, 1);
    g.deposit(0, 0, 0, PheromoneType::Food, 500_000_000);
    g.deposit(3, 3, 0, PheromoneType::Danger, 800_000_000);
    let before = scent_total(&g);
    g.diffuse();
    assert_eq!(scent_total(&g), before);
    assert!(g.get(3, 3, 0, PheromoneType::Danger) < 800_000_000);
    assert!(g.get(3, 4, 0, PheromoneType::Danger) > 0);
    assert!(g.get(4, 4, 0, PheromoneType::Danger) > 0);
    assert!(g.get(4, 4, 0, PheromoneType::Danger) < g.get(3, 4, 0, PheromoneType::Danger));
}

#[test]
fn decay_rates_differ_by_channel() {
    let mut g = PheromoneGrid::new(1, 1, 1);
    g.deposit(0, 0, 0, PheromoneType::Food, 1_000_000_000);
    g.deposit(0, 0, 0, PheromoneType::Home, 1_000_000_000);
    g.deposit(0, 0, 0, PheromoneType::Danger, 1_000_000_000);
    g.decay_all();
    assert_eq!(g.get(0, 0, 0, PheromoneType::Food), 980_000_000);
    assert_eq!(g.get(0, 0, 0, PheromoneType::Home), 995_000_000);
    assert_eq!(g.get(0, 0, 0, PheromoneType::Danger), 950_000_000);
    let mut small = PheromoneGrid::new(1, 1, 1);
    small.deposit(0, 0, 0, PheromoneType::Food, 1_000_000);
    small.decay_all();
    assert_eq!(small.get(0, 0, 0, PheromoneType::Food), 0);
}

#[test]
fn adaptive_deposits_shrink_near_the_maximum() {
    let base = 100_000_000;
    let mut current = 900_000_000;
    let mut last_increment = u32::MAX;
    for _ in 0..20 {
        let next = adaptive_deposit_value(current, base);
        let increment = next - current;
        assert!(increment < last_increment);
        assert!(next <= MAX_PHEROMONE);
        last_increment = increment;
        current = next;
    }
    assert_eq!(adaptive_deposit_value(0, 50_000_000), 50_000_000);
    assert_eq!(adaptive_deposit_value(500_000_000, 50_000_000), 525_000_000);
}

#[test]
fn scent_outside_grid_reads_zero_and_ignores_writes() {
    let mut g = PheromoneGrid::new(3, 3, 1);
    g.deposit(-1, 0, 0, PheromoneType::Food, 5);
    g.deposit(3, 0, 0, PheromoneType::Food, 5);
    assert_eq!(g.get(-1, 0, 0, PheromoneType::Food), 0);
    assert_eq!(scent_total(&g), 0);
}

#[test]
fn gradient_points_to_strongest_neighbour() {
    let mut g = PheromoneGrid::new(5, 5, 1);
    g.deposit(3, 2, 0, PheromoneType::Danger, 300_000_000);
    g.deposit(2, 1, 0, PheromoneType::Danger, 200_000_000);
    assert_eq!(g.get_gradient(2, 2, 0, PheromoneType::Danger), Some((1, 0)));
    g.deposit(2, 2, 0, PheromoneType::Danger, 900_000_000);
    assert_eq!(g.get_gradient(2, 2, 0, PheromoneType::Danger), None);
}

#[test]
fn weighted_choice_follows_the_roll() {
    let mut g = PheromoneGrid::new(5, 5, 1);
    g.deposit(2, 1, 0, PheromoneType::Food, 100_000_000);
    g.deposit(2, 3, 0, PheromoneType::Food, 200_000_000);
    let up = 100_000_000u64 * 100_000_000;
    assert_eq!(g.pick_weighted(2, 2, 0, PheromoneType::Food, 0), Some((0, -1)));
    assert_eq!(g.pick_weighted(2, 2, 0, PheromoneType::Food, up - 1), Some((0, -1)));
    assert_eq!(g.pick_weighted(2, 2, 0, PheromoneType::Food, up), Some((0, 1)));
    assert_eq!(g.pick_weighted(2, 2, 0, PheromoneType::Food, u64::MAX), Some((0, 1)));
    let picked = g.get_gradient_weighted(2, 2, 0, PheromoneType::Food);
    assert!(picked == Some((0, -1)) || picked == Some((0, 1)));
    assert_eq!(g.get_gradient_weighted(0, 0, 0, PheromoneType::Home), None);
}

fn combatant(id: u64, x: i32, y: i32, colony: u8) -> Combatant {
    Combatant { id, x, y, colony, role: AntRole::Worker, strength: 10 }
}

#[test]
fn adjacent_enemies_are_paired_once() {
    let mut grid = SpatialGrid::new(32, 32, 8);
    let cs = vec![combatant(11, 7, 7, 0), combatant(22, 8, 8, 1), combatant(33, 9, 9, 0), combatant(44, 20, 20, 1)];
    for c in &cs {
        grid.insert(c.id, c.x, c.y, c.colony);
    }
    let pairs = combat_pairs(&cs, &grid);
    assert_eq!(pairs.len(), 2);
    assert!(pairs.contains(&(0, 1)));
    assert!(pairs.contains(&(1, 2)));
    assert_eq!(pairs.iter().filter(|p| **p == (0, 1) || **p == (1, 0)).count(), 1);
}

#[test]
fn spatial_query_covers_neighbouring_buckets() {
    let mut grid = SpatialGrid::new(32, 32, 8);
    grid.insert(1, 7, 7, 0);
    grid.insert(2, 8, 8, 1);
    grid.insert(3, 30, 30, 1);
    let near = grid.query_nearby(7, 7);
    assert!(near.contains(&(1, 7, 7, 0)));
    assert!(near.contains(&(2, 8, 8, 1)));
    assert!(!near.contains(&(3, 30, 30, 1)));
    grid.clear();
    assert!(grid.query_nearby(7, 7).is_empty());
}

#[test]
fn damage_formula_values() {
    let cfg = CombatConfig::default();
    assert_eq!(calculate_damage(30, AntRole::Soldier, &cfg, 0), 18);
    assert_eq!(calculate_damage(10, AntRole::Worker, &cfg, 9), 15);
    assert_eq!(calculate_damage(0, AntRole::Queen, &cfg, 0), 0);
}

#[test]
fn first_hit_attaches_default_health() {
    let cfg = CombatConfig::default();
    let a = Agent::new(0, 0, 0, AntRole::Worker);
    let hit = apply_damage(a, 20, &cfg);
    assert_eq!(hit.fighter.unwrap().health, 30);
    assert_eq!(hit.fighter.unwrap().strength, cfg.default_fighter_strength);
    let again = apply_damage(hit, 40, &cfg);
    assert!(again.dead);
}

#[test]
fn cleanup_removes_only_the_dead() {
    let mut store = AgentStore::new();
    let alive = store.spawn(Agent::new(0, 0, 0, AntRole::Worker)).unwrap();
    let mut corpse = Agent::new(1, 0, 0, AntRole::Worker);
    corpse.dead = true;
    let gone = store.spawn(corpse).unwrap();
    cleanup_dead(&mut store);
    assert!(store.get(alive).is_some());
    assert!(store.get(gone).is_none());
    assert_eq!(store.len(), 1);
    assert_eq!(store.ids(), vec![alive]);
}

#[test]
fn agent_store_set_and_despawn() {
    let mut store = AgentStore::new();
    let id = store.spawn(Agent::new(3, 4, 1, AntRole::Soldier)).unwrap();
    let mut a = store.get(id).unwrap();
    assert_eq!((a.x, a.y, a.colony_id), (3, 4, 1));
    a.state = AntState::Fighting;
    store.set(id, a);
    assert_eq!(store.get(id).unwrap().state, AntState::Fighting);
    store.despawn(id);
    assert!(store.get(id).is_none());
    store.set(id, a);
    assert_eq!(store.len(), 0);
}

#[test]
fn setup_rejects_bad_configurations() {
    let terrain = Terrain::filled(10, 10, TerrainType::Air);
    let mut config = SimConfig::default();
    config.spawn.num_colonies = 0;
    assert_eq!(Simulation::new(terrain, config).err(), Some(SetupError::NoColonies));
    let terrain = Terrain::filled(10, 10, TerrainType::Air);
    config.spawn.num_colonies = 300;
    assert_eq!(Simulation::new(terrain, config).err(), Some(SetupError::TooManyColonies));
    let terrain = Terrain::filled(10, 10, TerrainType::Air);
    config.spawn.num_colonies = 3;
    assert!(Simulation::new(terrain, config).is_ok());
}

#[test]
fn setup_rejects_a_world_too_large() {
    let terrain = Terrain { width: usize::MAX / 2, height: 3, tiles: Vec::new() };
    let config = SimConfig::default();
    assert_eq!(Simulation::new(terrain, config).err(), Some(SetupError::WorldTooLarge));
}

fn layered_world() -> Terrain {
    let mut t = Terrain::filled(60, 30, TerrainType::Air);
    for x in 0..60 {
        t.set(x, 10, TerrainType::Surface);
        for y in 11..29 {
            t.set(x, y, TerrainType::Soil);
        }
        t.set(x, 29, TerrainType::Solid);
    }
    t
}

#[test]
fn simulation_runs_and_sweeps_the_dead() {
    let mut config = SimConfig::default();
    config.spawn.num_colonies = 2;
    config.spawn.min_colony_distance = 5;
    let mut sim = Simulation::new(layered_world(), config).ok().unwrap();
    sim.populate();
    assert!(sim.colonies.len() >= 1);
    assert!(sim.store.len() >= 1);
    for _ in 0..60 {
        sim.step();
        for id in sim.store.ids() {
            assert!(!sim.store.get(id).unwrap().dead);
        }
    }
    assert_eq!(sim.tick, 60);
}

#[test]
fn population_total_adds_roles() {
    let p = PopulationCount { queens: 1, workers: 10, soldiers: 2, eggs: 3, larvae: 4 };
    assert_eq!(p.total(), 20);
}

#[test]
fn water_config_defaults() {
    let w = WaterConfig::default();
    assert_eq!(w.drown_threshold_7, 1);
    assert_eq!(w.max_depth, 7);
}
