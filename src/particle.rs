use vstd::prelude::*;
use crate::config::{Config, VELOCITY_UNIT};
use crate::heights::{height_at, HeightMap};

verus! {

/// One grain of sand. `y` grows downward, so a smaller `y` is higher up.
/// Velocities are in units of `1 / VELOCITY_UNIT` cells per tick.
#[derive(Clone, Copy, Debug, PartialEq, Eq, Structural)]
pub struct Particle {
    pub x: u32,
    pub y: u32,
    pub vx: i64,
    pub vy: u64,
    pub settled: bool,
}

/// `a` cut down to the range of `u32`.
pub open spec fn clamp_u32(a: int) -> u32 {
    if a < 0 {
        0
    } else if a > u32::MAX {
        u32::MAX
    } else {
        a as u32
    }
}

/// Cell `c` moved by velocity `v`, truncated toward zero and kept in `u32`.
pub open spec fn moved(c: u32, v: int) -> u32 {
    let t = c * VELOCITY_UNIT + v;
    if t < 0 {
        0
    } else {
        clamp_u32(t / VELOCITY_UNIT as int)
    }
}

/// `vx` scaled by `keep / VELOCITY_UNIT`, truncated toward zero.
pub open spec fn damped_vx(vx: i64, keep: int) -> i64 {
    if vx < 0 {
        (-((-vx) * keep / VELOCITY_UNIT as int)) as i64
    } else {
        (vx * keep / VELOCITY_UNIT as int) as i64
    }
}

/// `v` plus one unit of downward acceleration, saturating.
pub open spec fn accelerated(v: int) -> u64 {
    if v + VELOCITY_UNIT > u64::MAX {
        u64::MAX
    } else {
        (v + VELOCITY_UNIT) as u64
    }
}

/// `vy` under air resistance and then one unit of gravity.
pub open spec fn falling_vy(vy: u64, keep: int) -> u64 {
    accelerated(vy * keep / VELOCITY_UNIT as int)
}

/// The particle after one tick against the column heights `m`, where an
/// empty column reaches the floor `cfg.height`. In order: move by the
/// velocity; below the top of its column, go back onto it and stop (still
/// active); while falling, lose speed to the air and gain one unit of
/// gravity; roll into a left column with room below, else a right one;
/// else settle. A column of height zero has no row above it, so a particle
/// landing there stays in row zero; no column lies right of `u32::MAX`.
pub open spec fn step(p: Particle, m: Map<u32, u32>, cfg: Config) -> Particle {
    if p.settled {
        p
    } else {
        let x = moved(p.x, p.vx as int);
        let y = moved(p.y, p.vy as int);
        let here = height_at(m, x, cfg.height);
        if y > here {
            Particle { x, y: clamp_u32(here - 1), vx: 0, vy: 0, settled: false }
        } else if p.vy > 0 {
            Particle {
                x,
                y,
                vx: damped_vx(p.vx, cfg.keep_factor()),
                vy: falling_vy(p.vy, cfg.keep_factor()),
                settled: false,
            }
        } else if x > 0 && height_at(m, (x - 1) as u32, cfg.height) > y + 1 {
            Particle { x: (x - 1) as u32, y, vx: p.vx, vy: accelerated(p.vy as int), settled: false }
        } else if x < u32::MAX && height_at(m, (x + 1) as u32, cfg.height) > y + 1 {
            Particle { x: (x + 1) as u32, y, vx: p.vx, vy: accelerated(p.vy as int), settled: false }
        } else {
            Particle { x, y, vx: p.vx, vy: p.vy, settled: true }
        }
    }
}

fn move_cell(c: u32, v: i128) -> (r: u32)
    requires
        -0x8000_0000_0000_0000 <= v <= 0xffff_ffff_ffff_ffff,
    ensures
        r == moved(c, v as int),
{
    assert(0 <= c * VELOCITY_UNIT <= 0xffff_ffff * 65536) by (nonlinear_arith)
        requires
            c <= 0xffff_ffff,
            VELOCITY_UNIT == 65536,
    ;
    let t: i128 = c as i128 * VELOCITY_UNIT as i128 + v;
    if t < 0 {
        0
    } else {
        let q: u128 = t as u128 / VELOCITY_UNIT as u128;
        if q > u32::MAX as u128 {
            u32::MAX
        } else {
            q as u32
        }
    }
}

fn accelerate(v: u64) -> (r: u64)
    ensures
        r == accelerated(v as int),
{
    v.saturating_add(VELOCITY_UNIT)
}

impl Particle {
    /// A particle at rest at cell `(x, y)`, not yet settled.
    pub fn new(x: u32, y: u32) -> (r: Particle)
        ensures
            r == (Particle { x, y, vx: 0, vy: 0, settled: false }),
    {
        Particle { x, y, vx: 0, vy: 0, settled: false }
    }

    /// Advances this particle by one tick against the column heights
    /// `heights`, which were taken at the start of the tick.
    pub fn update(&mut self, heights: &HeightMap, cfg: &Config)
        requires
            cfg.wf(),
        ensures
            *final(self) == step(*old(self), heights@, *cfg),
    {
        if self.settled {
            return;
        }
        let x = move_cell(self.x, self.vx as i128);
        let y = move_cell(self.y, self.vy as i128);
        let here = heights.height_or(x, cfg.height);
        let keep: u64 = VELOCITY_UNIT - cfg.air_resistance as u64;
        if y > here {
            self.x = x;
            self.y = here.saturating_sub(1);
            self.vx = 0;
            self.vy = 0;
        } else if self.vy > 0 {
            let mag: u128 = if self.vx < 0 {
                (0 - self.vx as i128) as u128
            } else {
                self.vx as u128
            };
            assert(mag * keep <= 0x8000_0000_0000_0000 * 65536) by (nonlinear_arith)
                requires
                    mag <= 0x8000_0000_0000_0000,
                    keep <= 65536,
            ;
            let scaled: u128 = mag * keep as u128 / VELOCITY_UNIT as u128;
            assert(scaled <= mag) by (nonlinear_arith)
                requires
                    scaled == mag * keep / 65536,
                    keep <= 65536,
            ;
            self.vx = if self.vx < 0 {
                (0 - scaled as i128) as i64
            } else {
                scaled as i64
            };
            assert(self.vy * keep <= 0xffff_ffff_ffff_ffff * 65536) by (nonlinear_arith)
                requires
                    self.vy <= 0xffff_ffff_ffff_ffff,
                    keep <= 65536,
            ;
            let dv: u128 = self.vy as u128 * keep as u128 / VELOCITY_UNIT as u128;
            assert(dv <= self.vy) by (nonlinear_arith)
                requires
                    dv == self.vy * keep / 65536,
                    keep <= 65536,
            ;
            self.vy = accelerate(dv as u64);
            self.x = x;
            self.y = y;
        } else if x > 0 && heights.height_or(x - 1, cfg.height) as u64 > y as u64 + 1 {
            self.x = x - 1;
            self.y = y;
            self.vy = accelerate(self.vy);
        } else if x < u32::MAX && heights.height_or(x + 1, cfg.height) as u64 > y as u64 + 1 {
            self.x = x + 1;
            self.y = y;
            self.vy = accelerate(self.vy);
        } else {
            self.x = x;
            self.y = y;
            self.settled = true;
        }
    }
}

/// A settled particle is left as it is by any further tick.
pub proof fn lemma_settled_stays(p: Particle, m: Map<u32, u32>, cfg: Config)
    requires
        p.settled,
    ensures
        step(p, m, cfg) == p,
{
}

} // verus!
