use vstd::prelude::*;

verus! {

/// One cell per tick, in the fixed-point units that velocities are held in.
pub const VELOCITY_UNIT: u64 = 65536;

/// The tunable physical constants of a simulation, fixed for its lifetime.
/// Settings that the update rule does not read (a velocity cap, wall and ball
/// damping, a collision tolerance) are not part of it.
#[derive(Clone, Copy, Debug, PartialEq, Eq, Structural)]
pub struct Config {
    /// Number of columns of the canvas.
    pub width: u32,
    /// Number of rows of the canvas; an empty column is treated as filled to here.
    pub height: u32,
    /// Fraction of velocity lost to air per falling tick, in units of
    /// `1 / VELOCITY_UNIT` (so `VELOCITY_UNIT` means all of it).
    pub air_resistance: u32,
    /// Particles spawned per frame while a spawn trigger is held.
    pub particle_rate: u32,
}

impl Config {
    /// The air resistance is at most one whole unit.
    pub open spec fn wf(self) -> bool {
        self.air_resistance as int <= VELOCITY_UNIT as int
    }

    /// The multiplicative factor `1 - air_resistance`, in fixed-point units.
    pub open spec fn keep_factor(self) -> int {
        VELOCITY_UNIT as int - self.air_resistance as int
    }
}

} // verus!
