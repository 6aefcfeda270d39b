//! Particle swarm optimization: the swarm's state and the decisions of each
//! iteration (personal, neighbourhood and global bests, clamping into the
//! bounds), over real values carried as ordered keys.
#![allow(non_snake_case)]

pub mod ordered;
pub mod particle;
pub mod engine;
