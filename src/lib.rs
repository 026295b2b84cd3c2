//! A fixed-point Verlet particle engine: gravity, a rectangular wall with an
//! inelastic bounce, and pairwise circular collisions resolved by positional
//! correction. Positions are integers in micro-units and times in
//! microseconds, so every step is exact and reproducible.

pub mod arith;
pub mod body;
pub mod collision;
pub mod world;
pub mod laws;
