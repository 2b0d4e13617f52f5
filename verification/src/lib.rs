//! Simulation core of a 2D tile-world sandbox: a fixed-size grid of typed
//! tiles, a deterministic seeded terrain generator, and a per-tick physics
//! engine that moves an actor through the grid while respecting solid tiles.

pub mod gen;
pub mod physics;
pub mod rng;
pub mod tile;
pub mod world;
