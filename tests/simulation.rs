use sand::config::{Config, VELOCITY_UNIT};
use sand::engine::{get_max_heights, ParticleSet};
use sand::heights::HeightMap;
use sand::particle::Particle;

fn grid(width: u32, height: u32, air_resistance: u32) -> Config {
    Config { width, height, air_resistance, particle_rate: 1 }
}

fn run_until_idle(set: &mut ParticleSet, max_ticks: usize) {
    let mut n = 0;
    while !set.particles.is_empty() && n < max_ticks {
        set.update();
        n += 1;
    }
    assert!(set.particles.is_empty(), "particles still active after {} ticks", max_ticks);
}

#[test]
fn single_particle_settles_on_floor() {
    let mut set = ParticleSet::new(grid(100, 100, 0));
    set.add_particle(50, 0);
    run_until_idle(&mut set, 1000);
    assert_eq!(set.settled.len(), 1);
    assert_eq!(set.settled[0].y, 99);
    assert!(set.settled[0].settled);
    // A particle spawned at rest first rolls one column left into the
    // empty neighbour, then falls.
    assert_eq!(set.settled[0].x, 49);
    assert_eq!(set.peaks.height_or(49, u32::MAX), 99);
    assert_eq!(set.peaks.height_or(50, u32::MAX), 100);
}

#[test]
fn second_particle_in_same_column_rolls_off_the_first() {
    let mut set = ParticleSet::new(grid(100, 100, 0));
    set.add_particle(50, 0);
    run_until_idle(&mut set, 1000);
    let first = set.settled[0];
    set.add_particle(50, 0);
    run_until_idle(&mut set, 1000);
    assert_eq!(set.settled.len(), 2);
    let second = set.settled[1];
    assert!(second.y <= first.y);
    assert_eq!((second.x, second.y), (48, 99));
    assert_eq!(set.peaks.height_or(48, u32::MAX), 99);
}

#[test]
fn particle_lands_on_top_of_pile_before_rolling() {
    let mut set = ParticleSet::new(grid(100, 100, 0));
    set.add_particle(50, 0);
    run_until_idle(&mut set, 1000);
    set.add_particle(50, 0);
    let mut lowest_row_over_pile = 0;
    for _ in 0..100 {
        set.update();
        if let Some(p) = set.particles.first() {
            if p.x == 49 && p.vy == 0 {
                lowest_row_over_pile = p.y;
            }
        }
    }
    assert_eq!(lowest_row_over_pile, 98);
}

#[test]
fn particle_on_full_column_slides_to_neighbor() {
    let mut set = ParticleSet::new(grid(100, 100, 0));
    set.peaks.lower_to(50, 0, 100);
    set.add_particle(50, 0);
    set.update();
    assert_eq!(set.particles.len(), 1);
    let p = set.particles[0];
    assert_eq!(p.x, 49);
    assert!(!p.settled);
    assert_eq!(p.vy, VELOCITY_UNIT);
    run_until_idle(&mut set, 1000);
    assert_ne!(set.settled[0].x, 50);
}

#[test]
fn left_neighbor_wins_ties() {
    let cfg = grid(10, 10, 0);
    let heights = HeightMap::from_entries(&[(5, 5)]);
    let mut p = Particle::new(5, 5);
    p.update(&heights, &cfg);
    assert_eq!(p.x, 4);
    assert_eq!(p.y, 5);
    assert_eq!(p.vy, VELOCITY_UNIT);
}

#[test]
fn right_neighbor_when_left_is_blocked() {
    let cfg = grid(10, 10, 0);
    let heights = HeightMap::from_entries(&[(4, 5), (5, 5)]);
    let mut p = Particle::new(5, 5);
    p.update(&heights, &cfg);
    assert_eq!(p.x, 6);
    assert!(!p.settled);
}

#[test]
fn no_left_move_from_column_zero() {
    let cfg = grid(10, 10, 0);
    let heights = HeightMap::from_entries(&[(0, 5), (1, 5)]);
    let mut p = Particle::new(0, 5);
    p.update(&heights, &cfg);
    assert_eq!(p.x, 0);
    assert!(p.settled);
}

#[test]
fn settles_when_boxed_in() {
    let cfg = grid(10, 10, 0);
    let heights = HeightMap::from_entries(&[(4, 6), (5, 6), (6, 6)]);
    let mut p = Particle::new(5, 5);
    p.update(&heights, &cfg);
    assert!(p.settled);
    assert_eq!((p.x, p.y, p.vx, p.vy), (5, 5, 0, 0));
}

#[test]
fn settled_particle_is_unchanged() {
    let cfg = grid(10, 10, 0);
    let heights = HeightMap::from_entries(&[]);
    let mut p = Particle { x: 3, y: 2, vx: 0, vy: 0, settled: true };
    let before = p;
    p.update(&heights, &cfg);
    assert_eq!(p, before);
    p.update(&heights, &cfg);
    assert_eq!(p, before);
}

#[test]
fn landing_clamps_above_column_without_settling() {
    let cfg = grid(10, 10, 0);
    let heights = HeightMap::from_entries(&[(5, 7)]);
    let mut p = Particle { x: 5, y: 6, vx: 0, vy: 3 * VELOCITY_UNIT, settled: false };
    p.update(&heights, &cfg);
    assert_eq!((p.x, p.y, p.vx, p.vy, p.settled), (5, 6, 0, 0, false));
}

#[test]
fn landing_on_column_of_height_zero_stays_at_top_row() {
    let cfg = grid(10, 10, 0);
    let heights = HeightMap::from_entries(&[(5, 0)]);
    let mut p = Particle { x: 5, y: 3, vx: 0, vy: VELOCITY_UNIT, settled: false };
    p.update(&heights, &cfg);
    assert_eq!((p.y, p.vy, p.settled), (0, 0, false));
}

#[test]
fn falling_applies_gravity_without_air() {
    let cfg = grid(10, 100, 0);
    let heights = HeightMap::from_entries(&[]);
    let mut p = Particle { x: 5, y: 0, vx: 0, vy: VELOCITY_UNIT, settled: false };
    p.update(&heights, &cfg);
    assert_eq!((p.y, p.vy), (1, 2 * VELOCITY_UNIT));
    p.update(&heights, &cfg);
    assert_eq!((p.y, p.vy), (3, 3 * VELOCITY_UNIT));
}

#[test]
fn falling_applies_air_resistance() {
    let cfg = grid(10, 100, (VELOCITY_UNIT / 2) as u32);
    let heights = HeightMap::from_entries(&[]);
    let mut p = Particle { x: 5, y: 0, vx: -3, vy: 2 * VELOCITY_UNIT, settled: false };
    p.update(&heights, &cfg);
    // vy: 2 halved, plus one; vx: -1.5 truncated toward zero.
    assert_eq!(p.vy, 2 * VELOCITY_UNIT);
    assert_eq!(p.vx, -1);
    assert_eq!(p.y, 2);
}

#[test]
fn horizontal_velocity_truncates_toward_zero() {
    let cfg = grid(10, 100, 0);
    let heights = HeightMap::from_entries(&[]);
    let mut p = Particle { x: 5, y: 0, vx: -(VELOCITY_UNIT as i64) / 2, vy: VELOCITY_UNIT, settled: false };
    p.update(&heights, &cfg);
    assert_eq!(p.x, 4);
    let mut q = Particle { x: 0, y: 0, vx: -(VELOCITY_UNIT as i64), vy: VELOCITY_UNIT, settled: false };
    q.update(&heights, &cfg);
    assert_eq!(q.x, 0);
}

#[test]
fn spawn_below_floor_is_pulled_back() {
    let mut set = ParticleSet::new(grid(100, 100, 0));
    set.add_particle(10, 500);
    set.update();
    assert_eq!(set.particles[0].y, 99);
    run_until_idle(&mut set, 100);
    assert_eq!(set.settled[0].y, 99);
}

#[test]
fn spawn_exactly_on_floor_row_rests_there() {
    let mut set = ParticleSet::new(grid(100, 100, 0));
    set.add_particle(10, 100);
    set.update();
    assert_eq!(set.settled.len(), 1);
    assert_eq!(set.settled[0].y, 100);
}

#[test]
fn tick_with_nothing_active_changes_nothing() {
    let mut set = ParticleSet::new(grid(20, 20, 0));
    set.update();
    assert!(set.particles.is_empty());
    assert!(set.settled.is_empty());
    assert_eq!(set.peaks.height_or(3, u32::MAX), u32::MAX);
}

#[test]
fn heights_cover_width_after_first_tick() {
    let mut set = ParticleSet::new(grid(20, 20, 0));
    set.add_particle(3, 0);
    set.update();
    assert_eq!(set.peaks.height_or(7, u32::MAX), 20);
    assert_eq!(set.peaks.height_or(20, u32::MAX), u32::MAX);
}

fn spawn_burst(set: &mut ParticleSet, round: u32) {
    for k in 0..5u32 {
        set.add_particle((round * 7 + k * 3) % 30, (round + k) % 10);
    }
}

#[test]
fn pile_heights_never_lower() {
    let mut set = ParticleSet::new(grid(30, 40, 0));
    let mut before: Vec<u32> = (0..30).map(|c| set.peaks.height_or(c, 40)).collect();
    for round in 0..60 {
        spawn_burst(&mut set, round);
        set.update();
        let after: Vec<u32> = (0..30).map(|c| set.peaks.height_or(c, 40)).collect();
        for c in 0..30 {
            assert!(after[c] <= before[c]);
        }
        before = after;
    }
}

#[test]
fn tick_conserves_particle_count() {
    let mut set = ParticleSet::new(grid(30, 40, 0));
    let mut spawned = 0;
    for round in 0..60 {
        spawn_burst(&mut set, round);
        spawned += 5;
        set.update();
        assert_eq!(set.particles.len() + set.settled.len(), spawned);
    }
}

#[test]
fn settled_particles_stay_above_floor() {
    let mut set = ParticleSet::new(grid(30, 40, 0));
    for round in 0..60 {
        spawn_burst(&mut set, round);
        set.update();
    }
    run_until_idle(&mut set, 10_000);
    assert!(!set.settled.is_empty());
    for p in set.settled.iter() {
        assert!(p.y <= 39);
        assert!(p.settled);
        assert_eq!((p.vx, p.vy), (0, 0));
    }
}

#[test]
fn identical_runs_give_identical_piles() {
    let run = || {
        let mut set = ParticleSet::new(grid(30, 40, VELOCITY_UNIT as u32 / 4));
        for round in 0..40 {
            spawn_burst(&mut set, round);
            set.update();
        }
        run_until_idle(&mut set, 10_000);
        let peaks: Vec<u32> = (0..31).map(|c| set.peaks.height_or(c, u32::MAX)).collect();
        (set.settled.clone(), peaks)
    };
    assert_eq!(run(), run());
}

#[test]
fn max_heights_take_the_smaller_of_record_and_particles() {
    let cfg = grid(4, 10, 0);
    let prev = HeightMap::from_entries(&[(0, 3), (1, 8), (9, 2)]);
    let settled = vec![
        Particle { x: 0, y: 5, vx: 0, vy: 0, settled: true },
        Particle { x: 1, y: 6, vx: 0, vy: 0, settled: true },
        Particle { x: 1, y: 4, vx: 0, vy: 0, settled: true },
        Particle { x: 7, y: 1, vx: 0, vy: 0, settled: true },
    ];
    let m = get_max_heights(Some(prev), &settled, &cfg);
    assert_eq!(m.height_or(0, u32::MAX), 3);
    assert_eq!(m.height_or(1, u32::MAX), 4);
    assert_eq!(m.height_or(2, u32::MAX), 10);
    assert_eq!(m.height_or(3, u32::MAX), 10);
    assert_eq!(m.height_or(7, u32::MAX), u32::MAX);
    assert_eq!(m.height_or(9, u32::MAX), 2);
    let fresh = get_max_heights(None, &settled, &cfg);
    assert_eq!(fresh.height_or(0, u32::MAX), 5);
    assert_eq!(fresh.height_or(1, u32::MAX), 4);
    assert_eq!(fresh.height_or(9, u32::MAX), u32::MAX);
}

#[test]
fn height_map_keeps_last_entry_per_column() {
    let m = HeightMap::from_entries(&[(3, 7), (5, 1), (3, 6)]);
    assert_eq!(m.height_or(3, 42), 6);
    assert_eq!(m.height_or(5, 42), 1);
    assert_eq!(m.height_or(4, 42), 42);
    let empty = HeightMap::from_entries(&[]);
    assert_eq!(empty.height_or(3, 42), 42);
}

#[test]
fn lowering_a_column_never_raises_it() {
    let mut m = HeightMap::from_entries(&[(2, 5)]);
    m.lower_to(2, 8, 10);
    assert_eq!(m.height_or(2, 42), 5);
    m.lower_to(2, 3, 10);
    assert_eq!(m.height_or(2, 42), 3);
    m.lower_to(4, 12, 10);
    assert_eq!(m.height_or(4, 42), 10);
    m.lower_to(6, 7, 10);
    assert_eq!(m.height_or(6, 42), 7);
}

#[test]
fn new_particle_is_at_rest() {
    let p = Particle::new(4, 9);
    assert_eq!(p, Particle { x: 4, y: 9, vx: 0, vy: 0, settled: false });
}
