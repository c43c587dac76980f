use vstd::prelude::*;

verus! {

/// Scent intensities and rates are fixed-point: this value stands for 1.0.
pub const UNIT: u32 = 1_000_000_000;

/// Scent field tuning, in units of `UNIT`.
#[derive(Clone, Copy, Debug)]
pub struct PheromoneConfig {
    pub max_strength: u32,
    pub decay_food: u32,
    pub decay_home: u32,
    pub decay_danger: u32,
    pub snap_to_zero: u32,
    pub deposit_food: u32,
    pub deposit_home: u32,
    pub deposit_danger: u32,
    pub diffusion_rate: u32,
    pub home_deposit_radius: i32,
    pub dig_deposit_radius: i32,
    pub dig_deposit_multiplier: u32,
    pub gradient_threshold: u32,
}

impl Default for PheromoneConfig {
    fn default() -> (r: PheromoneConfig)
        ensures
            r == (PheromoneConfig {
                max_strength: 1_000_000_000,
                decay_food: 20_000_000,
                decay_home: 5_000_000,
                decay_danger: 50_000_000,
                snap_to_zero: 1_000_000,
                deposit_food: 50_000_000,
                deposit_home: 30_000_000,
                deposit_danger: 100_000_000,
                diffusion_rate: 50_000_000,
                home_deposit_radius: 30,
                dig_deposit_radius: 20,
                dig_deposit_multiplier: 500_000_000,
                gradient_threshold: 10_000_000,
            }),
    {
        PheromoneConfig {
            max_strength: 1_000_000_000,
            decay_food: 20_000_000,
            decay_home: 5_000_000,
            decay_danger: 50_000_000,
            snap_to_zero: 1_000_000,
            deposit_food: 50_000_000,
            deposit_home: 30_000_000,
            deposit_danger: 100_000_000,
            diffusion_rate: 50_000_000,
            home_deposit_radius: 30,
            dig_deposit_radius: 20,
            dig_deposit_multiplier: 500_000_000,
            gradient_threshold: 10_000_000,
        }
    }
}

/// Combat tuning; scent amounts and thresholds in units of `UNIT`.
#[derive(Clone, Copy, Debug)]
pub struct CombatConfig {
    pub base_damage: u8,
    pub combat_interval: u64,
    pub soldier_strength: u8,
    pub worker_strength: u8,
    pub other_strength: u8,
    pub danger_deposit_amount: u32,
    pub damage_random_range: u8,
    pub default_health: u8,
    pub default_fighter_strength: u8,
    pub fight_danger_threshold: u32,
    pub stop_fight_threshold: u32,
    pub flee_danger_threshold: u32,
    pub stop_flee_threshold: u32,
    pub max_colonies_scan: u8,
}

impl Default for CombatConfig {
    fn default() -> (r: CombatConfig)
        ensures
            r == (CombatConfig {
                base_damage: 10,
                combat_interval: 5,
                soldier_strength: 30,
                worker_strength: 10,
                other_strength: 5,
                danger_deposit_amount: 500_000_000,
                damage_random_range: 10,
                default_health: 50,
                default_fighter_strength: 10,
                fight_danger_threshold: 100_000_000,
                stop_fight_threshold: 50_000_000,
                flee_danger_threshold: 300_000_000,
                stop_flee_threshold: 100_000_000,
                max_colonies_scan: 6,
            }),
    {
        CombatConfig {
            base_damage: 10,
            combat_interval: 5,
            soldier_strength: 30,
            worker_strength: 10,
            other_strength: 5,
            danger_deposit_amount: 500_000_000,
            damage_random_range: 10,
            default_health: 50,
            default_fighter_strength: 10,
            fight_danger_threshold: 100_000_000,
            stop_fight_threshold: 50_000_000,
            flee_danger_threshold: 300_000_000,
            stop_flee_threshold: 100_000_000,
            max_colonies_scan: 6,
        }
    }
}

/// Ages, cadences and costs of the life cycle, in ticks and food units.
#[derive(Clone, Copy, Debug)]
pub struct LifecycleConfig {
    pub egg_hatch_time: u32,
    pub larvae_mature_time: u32,
    pub queen_lay_interval: u32,
    pub food_per_egg: u32,
    pub worker_lifespan: u32,
    pub soldier_lifespan: u32,
    pub queen_lifespan: u32,
    pub food_consume_interval: u32,
    pub larvae_food_cost: u32,
    pub ant_food_cost: u32,
    pub worker_ratio_threshold: u8,
}

impl Default for LifecycleConfig {
    fn default() -> (r: LifecycleConfig)
        ensures
            r == (LifecycleConfig {
                egg_hatch_time: 200,
                larvae_mature_time: 300,
                queen_lay_interval: 100,
                food_per_egg: 10,
                worker_lifespan: 5000,
                soldier_lifespan: 3000,
                queen_lifespan: 50000,
                food_consume_interval: 50,
                larvae_food_cost: 2,
                ant_food_cost: 1,
                worker_ratio_threshold: 204,
            }),
    {
        LifecycleConfig {
            egg_hatch_time: 200,
            larvae_mature_time: 300,
            queen_lay_interval: 100,
            food_per_egg: 10,
            worker_lifespan: 5000,
            soldier_lifespan: 3000,
            queen_lifespan: 50000,
            food_consume_interval: 50,
            larvae_food_cost: 2,
            ant_food_cost: 1,
            worker_ratio_threshold: 204,
        }
    }
}

/// Chances out of 256 that drive movement and digging decisions.
#[derive(Clone, Copy, Debug)]
pub struct MovementConfig {
    pub queen_move_threshold: u8,
    pub idle_move_threshold: u8,
    pub dig_chance: u8,
    pub reinforce_chance: u8,
    pub start_dig_chance: u8,
    pub underground_return_chance: u8,
    pub surface_return_chance: u8,
    pub dig_distraction_chance: u8,
    pub idle_to_wander_chance_dig: u8,
}

impl Default for MovementConfig {
    fn default() -> (r: MovementConfig)
        ensures
            r == (MovementConfig {
                queen_move_threshold: 5,
                idle_move_threshold: 90,
                dig_chance: 8,
                reinforce_chance: 3,
                start_dig_chance: 50,
                underground_return_chance: 15,
                surface_return_chance: 3,
                dig_distraction_chance: 30,
                idle_to_wander_chance_dig: 5,
            }),
    {
        MovementConfig {
            queen_move_threshold: 5,
            idle_move_threshold: 90,
            dig_chance: 8,
            reinforce_chance: 3,
            start_dig_chance: 50,
            underground_return_chance: 15,
            surface_return_chance: 3,
            dig_distraction_chance: 30,
            idle_to_wander_chance_dig: 5,
        }
    }
}

/// Food sources and foraging.
#[derive(Clone, Copy, Debug)]
pub struct FoodConfig {
    pub num_food_sources: usize,
    pub initial_amount: u16,
    pub regrow_interval: u64,
    pub regrow_rate: u8,
    pub deposit_distance: i32,
    pub food_per_deposit: u8,
    pub food_per_pickup: u8,
    pub food_pheromone_threshold: u32,
}

impl Default for FoodConfig {
    fn default() -> (r: FoodConfig)
        ensures
            r == (FoodConfig {
                num_food_sources: 15,
                initial_amount: 100,
                regrow_interval: 500,
                regrow_rate: 1,
                deposit_distance: 3,
                food_per_deposit: 10,
                food_per_pickup: 10,
                food_pheromone_threshold: 10_000_000,
            }),
    {
        FoodConfig {
            num_food_sources: 15,
            initial_amount: 100,
            regrow_interval: 500,
            regrow_rate: 1,
            deposit_distance: 3,
            food_per_deposit: 10,
            food_per_pickup: 10,
            food_pheromone_threshold: 10_000_000,
        }
    }
}

/// World population at start; aphid yield in thousandths of a food unit per tick.
#[derive(Clone, Copy, Debug)]
pub struct SpawnConfig {
    pub num_colonies: usize,
    pub num_aphids: usize,
    pub initial_workers: usize,
    pub min_colony_distance: i32,
    pub aphid_food_rate: u32,
    pub aphid_claim_ticks: u32,
    pub aphid_nearby_distance: i32,
}

impl Default for SpawnConfig {
    fn default() -> (r: SpawnConfig)
        ensures
            r == (SpawnConfig {
                num_colonies: 3,
                num_aphids: 10,
                initial_workers: 10,
                min_colony_distance: 40,
                aphid_food_rate: 100,
                aphid_claim_ticks: 50,
                aphid_nearby_distance: 2,
            }),
    {
        SpawnConfig {
            num_colonies: 3,
            num_aphids: 10,
            initial_workers: 10,
            min_colony_distance: 40,
            aphid_food_rate: 100,
            aphid_claim_ticks: 50,
            aphid_nearby_distance: 2,
        }
    }
}

#[derive(Clone, Copy, Debug)]
pub struct ColonyConfig {
    pub initial_food: u32,
}

impl Default for ColonyConfig {
    fn default() -> (r: ColonyConfig)
        ensures
            r == (ColonyConfig { initial_food: 100 }),
    {
        ColonyConfig { initial_food: 100 }
    }
}

/// Water tuning; rain coverage in thousandths of the surface columns.
#[derive(Clone, Copy, Debug)]
pub struct WaterConfig {
    pub max_depth: u8,
    pub num_water_sources: usize,
    pub passable_threshold: u8,
    pub dangerous_threshold: u8,
    pub evaporation_max_depth: u8,
    pub stagnant_evaporation_ticks: u16,
    pub rain_chance: u32,
    pub rain_intensity_min: u8,
    pub rain_intensity_max: u8,
    pub rain_duration_min: u32,
    pub rain_duration_max: u32,
    pub rain_coverage_min: u32,
    pub rain_coverage_max: u32,
    pub drown_threshold_7: u32,
    pub drown_threshold_6: u32,
    pub drown_threshold_5: u32,
    pub drown_threshold_4: u32,
    pub flee_flood_depth: u8,
    pub water_flow_interval: u64,
    pub evaporation_interval: u64,
}

impl Default for WaterConfig {
    fn default() -> (r: WaterConfig)
        ensures
            r == (WaterConfig {
                max_depth: 7,
                num_water_sources: 5,
                passable_threshold: 6,
                dangerous_threshold: 4,
                evaporation_max_depth: 2,
                stagnant_evaporation_ticks: 500,
                rain_chance: 10000,
                rain_intensity_min: 1,
                rain_intensity_max: 3,
                rain_duration_min: 200,
                rain_duration_max: 1000,
                rain_coverage_min: 300,
                rain_coverage_max: 800,
                drown_threshold_7: 1,
                drown_threshold_6: 3,
                drown_threshold_5: 10,
                drown_threshold_4: 30,
                flee_flood_depth: 2,
                water_flow_interval: 3,
                evaporation_interval: 50,
            }),
    {
        WaterConfig {
            max_depth: 7,
            num_water_sources: 5,
            passable_threshold: 6,
            dangerous_threshold: 4,
            evaporation_max_depth: 2,
            stagnant_evaporation_ticks: 500,
            rain_chance: 10000,
            rain_intensity_min: 1,
            rain_intensity_max: 3,
            rain_duration_min: 200,
            rain_duration_max: 1000,
            rain_coverage_min: 300,
            rain_coverage_max: 800,
            drown_threshold_7: 1,
            drown_threshold_6: 3,
            drown_threshold_5: 10,
            drown_threshold_4: 30,
            flee_flood_depth: 2,
            water_flow_interval: 3,
            evaporation_interval: 50,
        }
    }
}

/// Structural collapse: cadence, dense-soil bonus and chances out of 256.
#[derive(Clone, Copy, Debug)]
pub struct HazardConfig {
    pub cave_in_interval: u64,
    pub dense_stability_bonus: u8,
    pub collapse_chance_3: u8,
    pub collapse_chance_4: u8,
    pub collapse_chance_5: u8,
    pub collapse_chance_6plus: u8,
}

impl Default for HazardConfig {
    fn default() -> (r: HazardConfig)
        ensures
            r == (HazardConfig {
                cave_in_interval: 10,
                dense_stability_bonus: 2,
                collapse_chance_3: 1,
                collapse_chance_4: 3,
                collapse_chance_5: 10,
                collapse_chance_6plus: 25,
            }),
    {
        HazardConfig {
            cave_in_interval: 10,
            dense_stability_bonus: 2,
            collapse_chance_3: 1,
            collapse_chance_4: 3,
            collapse_chance_5: 10,
            collapse_chance_6plus: 25,
        }
    }
}

/// The whole configuration, injected once at start.
#[derive(Clone, Copy, Debug)]
pub struct SimConfig {
    pub pheromone: PheromoneConfig,
    pub combat: CombatConfig,
    pub lifecycle: LifecycleConfig,
    pub movement: MovementConfig,
    pub food: FoodConfig,
    pub spawn: SpawnConfig,
    pub colony: ColonyConfig,
    pub water: WaterConfig,
    pub hazard: HazardConfig,
}

impl Default for SimConfig {
    fn default() -> (r: SimConfig)
        ensures
            r.pheromone == PheromoneConfig::default_spec(),
            r.combat.base_damage == 10,
            r.combat.combat_interval == 5,
            r.lifecycle.egg_hatch_time == 200,
            r.lifecycle.larvae_mature_time == 300,
            r.food.food_per_pickup == 10,
            r.water.max_depth == 7,
            r.water.drown_threshold_7 == 1,
            r.hazard.collapse_chance_6plus == 25,
    {
        SimConfig {
            pheromone: PheromoneConfig::default(),
            combat: CombatConfig::default(),
            lifecycle: LifecycleConfig::default(),
            movement: MovementConfig::default(),
            food: FoodConfig::default(),
            spawn: SpawnConfig::default(),
            colony: ColonyConfig::default(),
            water: WaterConfig::default(),
            hazard: HazardConfig::default(),
        }
    }
}

impl PheromoneConfig {
    pub open spec fn default_spec() -> PheromoneConfig {
        PheromoneConfig {
            max_strength: 1_000_000_000,
            decay_food: 20_000_000,
            decay_home: 5_000_000,
            decay_danger: 50_000_000,
            snap_to_zero: 1_000_000,
            deposit_food: 50_000_000,
            deposit_home: 30_000_000,
            deposit_danger: 100_000_000,
            diffusion_rate: 50_000_000,
            home_deposit_radius: 30,
            dig_deposit_radius: 20,
            dig_deposit_multiplier: 500_000_000,
            gradient_threshold: 10_000_000,
        }
    }
}

} // verus!
