//! Particle simulation core on integer (fixed-point) coordinates: a quadtree
//! for neighbour queries, a flat store of particle records, and the
//! per-tick rules for motion, wall reflection and elastic collision.

pub mod vector;
pub mod components;
pub mod store;
pub mod quadtree;
pub mod quadtree_laws;
pub mod systems;
pub mod utils;
pub mod collision_laws;
pub mod world;
pub mod world_laws;
pub mod shader;
