//! Placement of obstacle and spawner sites in a level, and the wave
//! scheduler that emits and clears hazards around the spawners.
pub mod geometry;
pub mod placement;
pub mod waves;
