//! A flock of boids in a wrapping cube world, with attractors and an octree
//! over the occupied grid cells.
pub mod boids;
pub mod octree;
pub mod ui;
