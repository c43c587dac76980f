use antcolony::agent::{Age, Agent, AntRole, AntState};
use antcolony::aphid::{aphid_system, claim_owner, spawn_aphids, Aphid};
use antcolony::colony::ColonyState;
use antcolony::combat::combat_system;
use antcolony::config::{MovementConfig, SimConfig};
use antcolony::dig::{decide_worker_state, dig_system, dig_target_for};
use antcolony::food::{check_deposit, food_regrow_system, foraging_movement, foraging_system, spawn_food_sources, FoodSource};
use antcolony::input::{command_for_char, Command};
use antcolony::lifecycle::{consume_food, queen_lay_eggs};
use antcolony::movement::{climb_movement, dig_movement, movement_system, random_movement};
use antcolony::pheromone::{PheromoneGrid, PheromoneType};
use antcolony::spatial::SpatialGrid;
use antcolony::terrain::{Terrain, TerrainType};
use antcolony::water::{evaporation_system, flee_flood_system, rain_system, RainEvent, WaterGrid};
use antcolony::world::AgentStore;

#[test]
fn one_combat_round_hits_each_side_once() {
    let config = SimConfig::default();
    let mut store = AgentStore::new();
    let a = store.spawn(Agent::new(4, 4, 0, AntRole::Worker)).unwrap();
    let b = store.spawn(Agent::new(5, 5, 1, AntRole::Soldier)).unwrap();
    let mut grid = SpatialGrid::new(16, 16, 8);
    for id in store.ids() {
        let ag = store.get(id).unwrap();
        grid.insert(id, ag.x, ag.y, ag.colony_id);
    }
    let mut scent = PheromoneGrid::new(16, 16, 2);
    combat_system(&mut store, &mut scent, 5, &grid, &config);
    let ha = store.get(a).unwrap().fighter.unwrap().health;
    let hb = store.get(b).unwrap().fighter.unwrap().health;
    // worker deals 10 + roll + 1 - 5, soldier 20 + roll + 3 - 5, roll below 10
    assert!((50 - 27..=50 - 18).contains(&ha), "worker health {ha}");
    assert!((50 - 15..=50 - 6).contains(&hb), "soldier health {hb}");
    assert_eq!(scent.get(4, 4, 0, PheromoneType::Danger), 500_000_000);
    assert_eq!(scent.get(5, 5, 1, PheromoneType::Danger), 500_000_000);
    let mut quiet = PheromoneGrid::new(16, 16, 2);
    combat_system(&mut store, &mut quiet, 6, &grid, &config);
    assert_eq!(store.get(a).unwrap().fighter.unwrap().health, ha);
    assert_eq!(quiet.get(4, 4, 0, PheromoneType::Danger), 0);
}

#[test]
fn random_walk_varies() {
    let mut seen = Vec::new();
    for _ in 0..400 {
        let d = random_movement();
        assert!(d.0 >= -1 && d.0 <= 1 && d.1 >= -1 && d.1 <= 1);
        if !seen.contains(&d) {
            seen.push(d);
        }
    }
    assert!(seen.len() >= 5);
}

#[test]
fn weighted_choice_uses_both_trails() {
    let mut g = PheromoneGrid::new(5, 5, 1);
    g.deposit(2, 1, 0, PheromoneType::Food, 500_000_000);
    g.deposit(2, 3, 0, PheromoneType::Food, 500_000_000);
    let mut up = 0;
    let mut down = 0;
    for _ in 0..400 {
        match g.get_gradient_weighted(2, 2, 0, PheromoneType::Food) {
            Some((0, -1)) => up += 1,
            Some((0, 1)) => down += 1,
            other => panic!("unexpected {other:?}"),
        }
    }
    assert!(up > 0 && down > 0);
}

#[test]
fn digger_moves_into_open_space_below_first() {
    let mut t = Terrain::filled(3, 3, TerrainType::Soil);
    t.set(0, 2, TerrainType::Tunnel);
    t.set(1, 2, TerrainType::Air);
    assert_eq!(dig_movement(1, 1, &t), (0, 1));
    t.set(1, 2, TerrainType::Soil);
    assert_eq!(dig_movement(1, 1, &t), (-1, 1));
    t.set(0, 2, TerrainType::Soil);
    assert_eq!(dig_movement(1, 1, &t), (0, 0));
}

#[test]
fn climber_goes_up_or_sideways() {
    let mut t = Terrain::filled(3, 3, TerrainType::Soil);
    t.set(1, 0, TerrainType::Tunnel);
    assert_eq!(climb_movement(1, 1, &t), (0, -1));
    t.set(1, 0, TerrainType::Soil);
    t.set(0, 1, TerrainType::Air);
    let mut moved = false;
    for _ in 0..200 {
        let d = climb_movement(1, 1, &t);
        assert!(d == (-1, 0) || d == (0, 0));
        moved |= d == (-1, 0);
    }
    assert!(moved);
}

#[test]
fn worker_state_decisions() {
    let cfg = MovementConfig::default();
    let mut t = Terrain::filled(3, 3, TerrainType::Soil);
    t.set(1, 1, TerrainType::Surface);
    let mut w = Agent::new(1, 1, 0, AntRole::Worker);
    assert_eq!(decide_worker_state(&w, &t, 0, &cfg), AntState::Digging);
    assert_eq!(decide_worker_state(&w, &t, 200, &cfg), AntState::Wandering);
    w.state = AntState::Returning;
    assert_eq!(decide_worker_state(&w, &t, 0, &cfg), AntState::Wandering);
    w.state = AntState::Digging;
    assert_eq!(decide_worker_state(&w, &t, 2, &cfg), AntState::Returning);
    assert_eq!(decide_worker_state(&w, &t, 3, &cfg), AntState::Digging);
    let open = Terrain::filled(3, 3, TerrainType::Air);
    assert_eq!(decide_worker_state(&w, &open, 200, &cfg), AntState::Returning);
    w.state = AntState::Idle;
    assert_eq!(decide_worker_state(&w, &open, 4, &cfg), AntState::Wandering);
    assert_eq!(decide_worker_state(&w, &open, 5, &cfg), AntState::Idle);
}

#[test]
fn carrier_heads_home() {
    let config = SimConfig::default();
    let t = Terrain::filled(10, 10, TerrainType::Air);
    let g = PheromoneGrid::new(10, 10, 1);
    let colonies = vec![ColonyState::new(0, 8, 2, 0)];
    let mut a = Agent::new(3, 5, 0, AntRole::Worker);
    a.state = AntState::Carrying;
    assert_eq!(foraging_movement(&a, &t, &g, &colonies, &config), Some((1, -1)));
    a.state = AntState::Wandering;
    assert_eq!(foraging_movement(&a, &t, &g, &colonies, &config), None);
}

#[test]
fn carrier_at_home_drops_load() {
    let config = SimConfig::default();
    let mut store = AgentStore::new();
    let mut a = Agent::new(5, 5, 0, AntRole::Worker);
    a.state = AntState::Carrying;
    a.carrying = Some(10);
    let near = store.spawn(a).unwrap();
    a.x = 20;
    let far = store.spawn(a).unwrap();
    let colonies = vec![ColonyState::new(0, 6, 6, 0)];
    check_deposit(&mut store, &colonies, &config);
    assert_eq!(store.get(near).unwrap().state, AntState::Wandering);
    assert_eq!(store.get(near).unwrap().carrying, None);
    assert_eq!(store.get(far).unwrap().state, AntState::Carrying);
}

#[test]
fn food_regrows_on_its_cadence() {
    let config = SimConfig::default();
    let mut foods = vec![FoodSource { x: 0, y: 0, amount: 50, regrow_rate: 1 }, FoodSource { x: 1, y: 0, amount: 100, regrow_rate: 1 }];
    food_regrow_system(&mut foods, 499, &config);
    assert_eq!(foods[0].amount, 50);
    food_regrow_system(&mut foods, 500, &config);
    assert_eq!(foods[0].amount, 51);
    assert_eq!(foods[1].amount, 100);
}

#[test]
fn food_spawns_on_surface_tiles() {
    let config = SimConfig::default();
    let mut t = Terrain::filled(40, 10, TerrainType::Air);
    for x in 0..40 {
        t.set(x, 5, TerrainType::Surface);
        for y in 6..10 {
            t.set(x, y, TerrainType::Soil);
        }
    }
    let foods = spawn_food_sources(&t, 8, &config);
    assert_eq!(foods.len(), 8);
    assert!(foods.iter().all(|f| f.y == 5 && f.amount == 100));
    let xs: Vec<i32> = foods.iter().map(|f| f.x).collect();
    assert!(xs.iter().any(|x| *x != xs[0]));
}

#[test]
fn aphids_spawn_below_the_surface() {
    let config = SimConfig::default();
    let mut t = Terrain::filled(30, 30, TerrainType::Air);
    for x in 0..30 {
        t.set(x, 5, TerrainType::Surface);
        for y in 6..30 {
            if !(9..=16).contains(&y) {
                t.set(x, y, TerrainType::Soil);
            }
        }
    }
    let aphids = spawn_aphids(&t, 5, &config);
    assert_eq!(aphids.len(), 5);
    assert!(aphids.iter().all(|a| a.y >= 9 && a.y <= 16 && a.colony_owner.is_none()));
}

#[test]
fn aphid_ownership_rules() {
    assert_eq!(claim_owner(&vec![0, 0, 0], Some(1)), None);
    assert_eq!(claim_owner(&vec![2, 3, 0], None), Some(1));
    assert_eq!(claim_owner(&vec![3, 3, 0], Some(2)), Some(2));
}

#[test]
fn owned_aphid_feeds_its_colony() {
    let config = SimConfig::default();
    let mut store = AgentStore::new();
    store.spawn(Agent::new(1, 0, 1, AntRole::Worker)).unwrap();
    let mut colonies = vec![ColonyState::new(0, 0, 0, 0), ColonyState::new(1, 0, 0, 5)];
    let mut aphids = vec![Aphid { x: 0, y: 0, food_per_tick: 400, colony_owner: Some(1) }];
    for _ in 0..5 {
        aphid_system(&store, &mut colonies, &mut aphids, &config);
    }
    assert_eq!(aphids[0].colony_owner, Some(1));
    assert_eq!(colonies[1].food_stored, 7);
    assert_eq!(colonies[1].food_fraction, 0);
    let empty = AgentStore::new();
    aphid_system(&empty, &mut colonies, &mut aphids, &config);
    assert_eq!(aphids[0].colony_owner, None);
}

#[test]
fn queens_lay_when_fed() {
    let config = SimConfig::default();
    let mut store = AgentStore::new();
    store.spawn(Agent::new(5, 5, 0, AntRole::Queen)).unwrap();
    store.spawn(Agent::new(9, 9, 1, AntRole::Queen)).unwrap();
    let mut colonies = vec![ColonyState::new(0, 5, 5, 25), ColonyState::new(1, 9, 9, 5)];
    queen_lay_eggs(&mut store, &mut colonies, 100, &config);
    assert_eq!(store.len(), 3);
    assert_eq!(colonies[0].food_stored, 15);
    assert_eq!(colonies[1].food_stored, 5);
    let egg = store.ids().into_iter().map(|id| store.get(id).unwrap()).find(|a| a.role == AntRole::Egg).unwrap();
    assert_eq!(egg.age, Some(Age { ticks: 0, max_ticks: 200 }));
    assert!((egg.x - 5).abs() <= 1 && (egg.y - 5).abs() <= 1);
    queen_lay_eggs(&mut store, &mut colonies, 101, &config);
    assert_eq!(store.len(), 3);
}

#[test]
fn upkeep_charges_by_role_and_saturates() {
    let config = SimConfig::default();
    let mut store = AgentStore::new();
    store.spawn(Agent::new(0, 0, 0, AntRole::Larvae)).unwrap();
    store.spawn(Agent::new(0, 0, 0, AntRole::Worker)).unwrap();
    store.spawn(Agent::new(0, 0, 0, AntRole::Egg)).unwrap();
    store.spawn(Agent::new(0, 0, 1, AntRole::Worker)).unwrap();
    let mut colonies = vec![ColonyState::new(0, 0, 0, 10), ColonyState::new(1, 0, 0, 0)];
    consume_food(&store, &mut colonies, &config);
    assert_eq!(colonies[0].food_stored, 7);
    assert_eq!(colonies[1].food_stored, 0);
}

#[test]
fn population_counts_by_role() {
    let mut store = AgentStore::new();
    store.spawn(Agent::new(0, 0, 0, AntRole::Queen)).unwrap();
    store.spawn(Agent::new(0, 0, 0, AntRole::Worker)).unwrap();
    store.spawn(Agent::new(0, 0, 0, AntRole::Worker)).unwrap();
    store.spawn(Agent::new(0, 0, 1, AntRole::Soldier)).unwrap();
    let c = ColonyState::new(0, 0, 0, 0).population_summary(&store);
    assert_eq!((c.queens, c.workers, c.soldiers, c.eggs, c.larvae), (1, 2, 0, 0, 0));
}

#[test]
fn exposed_shallow_water_evaporates_after_staleness() {
    let mut config = SimConfig::default();
    config.water.stagnant_evaporation_ticks = 2;
    let t = Terrain::filled(3, 3, TerrainType::Air);
    let mut water = WaterGrid::new(3, 3, 7);
    water.add_water(1, 0, 2);
    water.add_water(1, 2, 5);
    for _ in 0..2 {
        evaporation_system(&mut water, &t, &config);
        assert_eq!(water.depth(1, 0), 2);
    }
    evaporation_system(&mut water, &t, &config);
    assert_eq!(water.depth(1, 0), 1);
    assert_eq!(water.get(1, 0).stagnant, 0);
    assert_eq!(water.depth(1, 2), 5);
}

#[test]
fn rain_starts_and_counts_down() {
    let mut config = SimConfig::default();
    config.water.rain_chance = 1;
    config.water.rain_coverage_min = 1000;
    config.water.rain_coverage_max = 1000;
    let mut t = Terrain::filled(4, 4, TerrainType::Air);
    for x in 0..4 {
        t.set(x, 3, TerrainType::Solid);
    }
    let mut water = WaterGrid::new(4, 4, 7);
    let mut event: Option<RainEvent> = None;
    rain_system(&mut water, &t, &mut event, &config);
    let e = event.expect("rain started");
    assert!(e.intensity >= 1 && e.intensity <= 3);
    assert!(e.duration >= 199 && e.duration < 1000);
    for x in 0..4 {
        assert!(water.depth(x, 2) >= 1);
    }
    let mut short = Some(RainEvent { intensity: 1, duration: 1, coverage: 0 });
    rain_system(&mut water, &t, &mut short, &config);
    assert!(short.is_none());
}

#[test]
fn flood_sends_agents_climbing() {
    let config = SimConfig::default();
    let mut water = WaterGrid::new(3, 3, 7);
    water.add_water(0, 0, 2);
    let mut store = AgentStore::new();
    let wet = store.spawn(Agent::new(0, 0, 0, AntRole::Worker)).unwrap();
    let dry = store.spawn(Agent::new(2, 2, 0, AntRole::Worker)).unwrap();
    flee_flood_system(&mut store, &water, &config);
    assert_eq!(store.get(wet).unwrap().state, AntState::Returning);
    assert_eq!(store.get(dry).unwrap().state, AntState::Wandering);
}

#[test]
fn keys_map_to_commands() {
    assert_eq!(command_for_char('q'), Some(Command::Quit));
    assert_eq!(command_for_char(' '), Some(Command::Pause));
    assert_eq!(command_for_char('+'), Some(Command::SpeedUp));
    assert_eq!(command_for_char('h'), Some(Command::ScrollLeft));
    assert_eq!(command_for_char('x'), None);
}

#[test]
fn carriers_at_home_fill_the_store() {
    let config = SimConfig::default();
    let mut store = AgentStore::new();
    let mut a = Agent::new(5, 5, 0, AntRole::Worker);
    a.state = AntState::Carrying;
    a.carrying = Some(10);
    store.spawn(a).unwrap();
    store.spawn(a).unwrap();
    a.x = 30;
    store.spawn(a).unwrap();
    let mut colonies = vec![ColonyState::new(0, 6, 6, 100), ColonyState::new(1, 0, 0, u32::MAX - 3)];
    let mut b = Agent::new(0, 1, 1, AntRole::Worker);
    b.state = AntState::Carrying;
    store.spawn(b).unwrap();
    let mut foods: Vec<FoodSource> = Vec::new();
    foraging_system(&mut store, &mut colonies, &mut foods, &config);
    assert_eq!(colonies[0].food_stored, 120);
    assert_eq!(colonies[1].food_stored, u32::MAX);
}

#[test]
fn movement_follows_state_rules() {
    let config = SimConfig::default();
    let mut t = Terrain::filled(10, 10, TerrainType::Soil);
    t.set(2, 3, TerrainType::Tunnel);
    t.set(2, 4, TerrainType::Tunnel);
    t.set(7, 2, TerrainType::Air);
    t.set(7, 3, TerrainType::Air);
    t.set(5, 5, TerrainType::Air);
    let g = PheromoneGrid::new(10, 10, 1);
    let colonies = vec![ColonyState::new(0, 0, 0, 0)];
    let mut store = AgentStore::new();
    let mut digger = Agent::new(2, 3, 0, AntRole::Worker);
    digger.state = AntState::Digging;
    let d = store.spawn(digger).unwrap();
    let mut climber = Agent::new(7, 3, 0, AntRole::Worker);
    climber.state = AntState::Returning;
    let c = store.spawn(climber).unwrap();
    let egg = store.spawn(Agent::new(5, 5, 0, AntRole::Egg)).unwrap();
    movement_system(&mut store, &t, &g, &colonies, &config);
    assert_eq!((store.get(d).unwrap().x, store.get(d).unwrap().y), (2, 4));
    assert_eq!((store.get(c).unwrap().x, store.get(c).unwrap().y), (7, 2));
    assert_eq!((store.get(egg).unwrap().x, store.get(egg).unwrap().y), (5, 5));
}

#[test]
fn diggers_tunnel_their_first_target() {
    let config = SimConfig::default();
    let mut t = Terrain::filled(5, 5, TerrainType::Solid);
    t.set(2, 1, TerrainType::Air);
    t.set(1, 2, TerrainType::Soil);
    t.set(2, 2, TerrainType::Soil);
    t.set(1, 1, TerrainType::Soil);
    assert_eq!(dig_target_for(&t, 2, 1), Some((2, 2)));
    let mut store = AgentStore::new();
    let mut w = Agent::new(2, 1, 0, AntRole::Worker);
    w.state = AntState::Digging;
    store.spawn(w).unwrap();
    let mut rounds = 0;
    while t.get(2, 2) != Some(TerrainType::Tunnel) && rounds < 5000 {
        dig_system(&store, &mut t, &config);
        rounds += 1;
    }
    assert_eq!(t.get(2, 2), Some(TerrainType::Tunnel));
    assert_ne!(t.get(1, 2), Some(TerrainType::Tunnel));
    assert!(t.get(1, 1) == Some(TerrainType::Soil) || t.get(1, 1) == Some(TerrainType::SoilDense));
    assert_eq!(t.get(0, 0), Some(TerrainType::Solid));
}

#[test]
fn adaptive_deposit_increments_shrink_near_half_strength() {
    // a cell at 0.4991 receiving 0.001 twice
    let first = antcolony::pheromone::adaptive_deposit_value(499_100_000, 1_000_000);
    let second = antcolony::pheromone::adaptive_deposit_value(first, 1_000_000);
    assert!(second - first < first - 499_100_000);
}

#[test]
fn transfer_records_the_offset() {
    let mut water = WaterGrid::new(4, 1, 7);
    water.add_water(0, 0, 3);
    water.transfer(0, 0, 2, 0, 1);
    assert_eq!(water.get(0, 0).flow_dir, (2, 0));
}

#[test]
fn collapse_selection_follows_the_table() {
    let cfg = antcolony::config::HazardConfig::default();
    // soil at (2,2) with six open neighbours, open below, no tunnel next to it
    let mut t = Terrain::filled(5, 5, TerrainType::Solid);
    t.set(2, 2, TerrainType::Soil);
    for (x, y) in [(1, 1), (2, 1), (3, 1), (1, 2), (3, 2), (2, 3)] {
        t.set(x, y, TerrainType::Air);
    }
    let mut rolls = vec![255u8; 25];
    rolls[2 * 5 + 2] = 24;
    assert_eq!(antcolony::hazard::select_collapses(&t, &rolls, &cfg), vec![(2, 2)]);
    rolls[2 * 5 + 2] = 25;
    assert!(antcolony::hazard::select_collapses(&t, &rolls, &cfg).is_empty());
    // two open neighbours: chance 0, never selected
    let mut t2 = Terrain::filled(5, 5, TerrainType::Solid);
    t2.set(2, 2, TerrainType::Soil);
    t2.set(2, 3, TerrainType::Air);
    t2.set(1, 3, TerrainType::Air);
    let zeros = vec![0u8; 25];
    assert!(antcolony::hazard::select_collapses(&t2, &zeros, &cfg).is_empty());
}

#[test]
fn collapsing_soil_falls_and_crushes() {
    let mut t = Terrain::filled(3, 6, TerrainType::Air);
    t.set(1, 5, TerrainType::Solid);
    t.set(1, 1, TerrainType::Soil);
    let mut store = AgentStore::new();
    let victim = store.spawn(Agent::new(1, 4, 0, AntRole::Worker)).unwrap();
    let bystander = store.spawn(Agent::new(0, 4, 0, AntRole::Worker)).unwrap();
    antcolony::hazard::collapse_tile(&mut t, &mut store, 1, 1);
    assert_eq!(t.get(1, 1), Some(TerrainType::Air));
    assert_eq!(t.get(1, 4), Some(TerrainType::Soil));
    assert!(store.get(victim).unwrap().dead);
    assert!(!store.get(bystander).unwrap().dead);
}

#[test]
fn apply_dig_tunnels_and_hardens_by_roll() {
    let cfg = MovementConfig::default();
    let mut t = Terrain::filled(5, 5, TerrainType::Soil);
    antcolony::dig::apply_dig(&mut t, 2, 2, &vec![0, 255, 0, 255, 255], &cfg);
    assert_eq!(t.get(2, 2), Some(TerrainType::Tunnel));
    assert_eq!(t.get(1, 2), Some(TerrainType::SoilDense));
    assert_eq!(t.get(3, 2), Some(TerrainType::Soil));
    assert_eq!(t.get(2, 1), Some(TerrainType::SoilDense));
    assert_eq!(t.get(1, 1), Some(TerrainType::Soil));
}

#[test]
fn rain_columns_water_covered_columns_only() {
    let mut t = Terrain::filled(3, 4, TerrainType::Air);
    for x in 0..3 {
        t.set(x, 3, TerrainType::Solid);
    }
    let mut water = WaterGrid::new(3, 4, 7);
    antcolony::water::rain_columns(&mut water, &t, 2, 500, &vec![100, 900, 0]);
    assert_eq!(water.depth(0, 2), 2);
    assert_eq!(water.depth(1, 2), 0);
    assert_eq!(water.depth(2, 2), 2);
    assert_eq!(water.depth(0, 1), 0);
}

#[test]
fn lone_water_unit_falls_straight_down() {
    let mut t = Terrain::filled(3, 4, TerrainType::Solid);
    t.set(1, 0, TerrainType::Air);
    t.set(1, 1, TerrainType::Air);
    let mut water = WaterGrid::new(3, 4, 7);
    water.add_water(1, 0, 1);
    antcolony::water::calculate_pressure(&mut water, &t);
    antcolony::water::water_flow_system(&mut water, &t);
    assert_eq!(water.depth(1, 0), 0);
    assert_eq!(water.depth(1, 1), 1);
}

#[test]
fn diffusion_gives_each_neighbour_its_share() {
    let mut g = PheromoneGrid::new(3, 3, 1);
    g.deposit(1, 1, 0, PheromoneType::Food, 1_000_000_000);
    g.diffuse();
    // spread 0.05; side share 0.05 * 1000 / 6828, corner 0.05 * 707 / 6828
    let side = (50_000_000u64 * 1000 / 6828) as u32;
    let corner = (50_000_000u64 * 707 / 6828) as u32;
    assert_eq!(g.get(1, 0, 0, PheromoneType::Food), side);
    assert_eq!(g.get(0, 0, 0, PheromoneType::Food), corner);
    assert_eq!(g.get(1, 1, 0, PheromoneType::Food), 1_000_000_000 - 4 * side - 4 * corner);
}

#[test]
fn deposits_follow_agent_states() {
    let mut store = AgentStore::new();
    let mut carrier = Agent::new(1, 1, 0, AntRole::Worker);
    carrier.state = AntState::Carrying;
    store.spawn(carrier).unwrap();
    store.spawn(Agent::new(3, 3, 0, AntRole::Worker)).unwrap();
    let colonies = vec![ColonyState::new(0, 3, 3, 0)];
    let mut g = PheromoneGrid::new(5, 5, 1);
    antcolony::pheromone::pheromone_deposit_system(&store, &mut g, &colonies);
    assert_eq!(g.get(1, 1, 0, PheromoneType::Food), 50_000_000);
    assert_eq!(g.get(3, 3, 0, PheromoneType::Home), 30_000_000);
    assert_eq!(g.get(1, 1, 0, PheromoneType::Home), 0);
    assert_eq!(g.get(3, 3, 0, PheromoneType::Danger), 0);
}

#[test]
fn lone_worker_empties_a_small_node() {
    let config = SimConfig::default();
    let mut store = AgentStore::new();
    let id = store.spawn(Agent::new(2, 2, 0, AntRole::Worker)).unwrap();
    let mut colonies = vec![ColonyState::new(0, 30, 30, 0)];
    let mut foods = vec![FoodSource { x: 2, y: 2, amount: 4, regrow_rate: 1 }];
    foraging_system(&mut store, &mut colonies, &mut foods, &config);
    assert_eq!(store.get(id).unwrap().carrying, Some(4));
    assert_eq!(store.get(id).unwrap().state, AntState::Carrying);
    assert_eq!(foods[0].amount, 0);
}

#[test]
fn a_duel_is_one_blow_each() {
    let config = SimConfig::default();
    let mut store = AgentStore::new();
    let a = store.spawn(Agent::new(4, 4, 0, AntRole::Worker)).unwrap();
    let b = store.spawn(Agent::new(4, 5, 1, AntRole::Worker)).unwrap();
    let mut grid = SpatialGrid::new(16, 16, 8);
    for id in store.ids() {
        let ag = store.get(id).unwrap();
        grid.insert(id, ag.x, ag.y, ag.colony_id);
    }
    let mut scent = PheromoneGrid::new(16, 16, 2);
    combat_system(&mut store, &mut scent, 10, &grid, &config);
    // a worker deals 10 + roll + 1 - 5 with roll below 10
    for id in [a, b] {
        let h = store.get(id).unwrap().fighter.unwrap().health;
        assert!((50 - 15..=50 - 6).contains(&h), "health {h}");
    }
}
