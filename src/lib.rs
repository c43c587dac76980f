//! Tick-driven colony simulation core: terrain, scent field, water and agent rules.

pub mod config;
pub mod colony;
pub mod input;
pub mod terrain;
pub mod water;
pub mod agent;
pub mod world;
mod random;
pub mod spatial;
pub mod pheromone;
pub mod hazard;
pub mod combat;
pub mod food;
pub mod movement;
pub mod dig;
pub mod lifecycle;
pub mod aphid;
pub mod spawn;
pub mod sim;
