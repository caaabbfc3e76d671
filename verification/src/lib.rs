//! Chunk streaming and procedural generation engine for a voxel world.
//!
//! The crate decides which chunks of a block world are needed by a set of
//! moving observers, orders outstanding generation requests by urgency,
//! hands them to a pool of background workers over message queues, and
//! merges finished chunks back into world storage without blocking the
//! per-tick simulation.

pub mod block;
pub mod coords;
pub mod pending;
pub mod persistence;
pub mod scheduler;
pub mod table;
pub mod terrain;
pub mod world_store;

pub use coords::ChunkPos;
