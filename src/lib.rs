//! A falling-sand simulation core: particles fall under unit gravity, land on
//! a pile whose column heights shape where later particles come to rest, and
//! slide off slopes before they settle.
//!
//! Velocities are fixed-point: `VELOCITY_UNIT` stands for one cell per tick.

pub mod config;
pub mod heights;
pub mod particle;
pub mod engine;
