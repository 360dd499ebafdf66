//! Simulation core of a small 2D underwater arcade world: a player-steered
//! creature, shoaling fish, rising bubbles and collectable pickups move over
//! an undulating seafloor under gravity, drag and swimming thrust.
//!
//! All world quantities are fixed-point integers: lengths and velocities
//! carry a scale of 1000 (milli-units), angles a scale of 10000
//! (tenth-milliradians), and player attributes a scale of 1000000
//! (micro-units). Every rule of the simulation is stated over these plain
//! values and proved.

pub mod attr;
pub mod collide;
pub mod fixed;
pub mod physics;
pub mod policy;
pub mod respawn;
pub mod rng;
pub mod seafloor;
pub mod shell;
pub mod store;
pub mod vec2;
pub mod world;
