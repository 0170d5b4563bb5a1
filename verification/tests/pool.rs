use fractal_lands::particle_driver::{Particle, ParticleDriver, Rgb, PMAX};
use fractal_lands::world::GameWorld;

// Fixed-point conventions used throughout these tests: one position unit is
// 1000 subunits, one second is 1000 time units (milliseconds), so a velocity
// of one unit per second is one subunit per millisecond.
const UNIT: i64 = 1000;

fn grey() -> Rgb {
    Rgb { r: 500, g: 500, b: 500 }
}

fn spawn_still(pool: &mut ParticleDriver, lifetime: i64, tex_id: usize) -> bool {
    pool.add_particle(0, 0, 0, 0, 0, 0, lifetime, tex_id, grey())
}

fn snapshot(pool: &ParticleDriver) -> (Vec<Particle>, usize) {
    let mut slots: Vec<Particle> = Vec::new();
    let mut mark: usize = 0;
    pool.for_each_particle(|p, hw| {
        slots = p.clone();
        mark = hw;
    });
    (slots, mark)
}

fn active_count(pool: &ParticleDriver) -> usize {
    let (slots, _) = snapshot(pool);
    slots.iter().filter(|p| p.active).count()
}

#[test]
fn new_pool_is_empty() {
    let pool = ParticleDriver::new();
    let (slots, mark) = snapshot(&pool);
    assert_eq!(slots.len(), PMAX);
    assert_eq!(mark, 0);
    assert!(!pool.has_particles());
    assert!(slots.iter().all(|p| !p.active));
    assert_eq!(pool.spawn_chance, 0);
    assert_eq!(pool.spawn_tile_set, 1);
    assert!(pool.spawn_ids.is_empty());
}

#[test]
fn capacity_bound_small_pool() {
    let mut pool = ParticleDriver::with_capacity(4);
    for _ in 0..4 {
        assert!(spawn_still(&mut pool, UNIT, 0));
    }
    assert!(!spawn_still(&mut pool, UNIT, 0));
    assert_eq!(active_count(&pool), 4);
}

#[test]
fn capacity_bound_default_pool() {
    let mut pool = ParticleDriver::new();
    for _ in 0..PMAX {
        assert!(spawn_still(&mut pool, UNIT, 0));
    }
    assert!(!spawn_still(&mut pool, UNIT, 0));
    assert_eq!(active_count(&pool), PMAX);
}

#[test]
fn failed_allocation_leaves_pool_unchanged() {
    let mut pool = ParticleDriver::with_capacity(2);
    assert!(pool.add_particle(1, 2, 3, 4, 5, 6, UNIT, 7, grey()));
    assert!(pool.add_particle(8, 9, 10, 11, 12, 13, UNIT, 14, grey()));
    let before = snapshot(&pool);
    assert!(!pool.add_particle(99, 99, 99, 99, 99, 99, UNIT, 99, grey()));
    let after = snapshot(&pool);
    assert_eq!(before, after);
}

#[test]
fn zero_capacity_pool_rejects_all() {
    let mut pool = ParticleDriver::with_capacity(0);
    assert!(!spawn_still(&mut pool, UNIT, 0));
    assert!(!pool.has_particles());
}

#[test]
fn watermark_tight_after_drive() {
    let mut pool = ParticleDriver::with_capacity(8);
    // Mixed lifetimes: slots 0, 2, 4 die on the first tick, the rest live.
    for i in 0..6 {
        let lifetime = if i % 2 == 0 { 100 } else { 10 * UNIT };
        assert!(spawn_still(&mut pool, lifetime, i));
    }
    pool.drive(500);
    let (slots, mark) = snapshot(&pool);
    // The slot just below the mark is active, everything at or above is not.
    assert_eq!(mark, 6);
    assert!(slots[mark - 1].active);
    for i in mark..slots.len() {
        assert!(!slots[i].active);
    }
    // Now expire the survivors too: the mark must collapse to zero.
    pool.drive(10 * UNIT);
    let (slots, mark) = snapshot(&pool);
    assert_eq!(mark, 0);
    for p in &slots {
        assert!(!p.active);
    }
}

#[test]
fn aging_expires_on_first_overrun() {
    // Lifetime of one second, ticks of 0.3 s: alive at ages 0.3, 0.6, 0.9,
    // expired at 1.2.
    let mut pool = ParticleDriver::with_capacity(1);
    assert!(spawn_still(&mut pool, UNIT, 0));
    for expected_age in [300, 600, 900] {
        pool.drive(300);
        let (slots, _) = snapshot(&pool);
        assert!(slots[0].active);
        assert_eq!(slots[0].age, expected_age);
    }
    pool.drive(300);
    let (slots, mark) = snapshot(&pool);
    assert!(!slots[0].active);
    assert_eq!(slots[0].age, 1200);
    assert_eq!(mark, 0);
}

#[test]
fn age_exactly_at_lifetime_survives() {
    let mut pool = ParticleDriver::with_capacity(1);
    assert!(spawn_still(&mut pool, UNIT, 0));
    pool.drive(UNIT);
    let (slots, _) = snapshot(&pool);
    // Expiry needs age strictly greater than the lifetime.
    assert!(slots[0].active);
    pool.drive(1);
    let (slots, _) = snapshot(&pool);
    assert!(!slots[0].active);
}

#[test]
fn expired_slot_zero_is_reused() {
    let mut pool = ParticleDriver::with_capacity(4);
    assert!(spawn_still(&mut pool, 100, 11));
    assert!(spawn_still(&mut pool, 10 * UNIT, 22));
    // Slot 0 expires, slot 1 survives; the hint drops back to 0.
    pool.drive(500);
    let (slots, mark) = snapshot(&pool);
    assert!(!slots[0].active);
    assert!(slots[1].active);
    assert_eq!(mark, 2);
    // The next allocation must claim index 0 again.
    assert!(spawn_still(&mut pool, UNIT, 33));
    let (slots, _) = snapshot(&pool);
    assert!(slots[0].active);
    assert_eq!(slots[0].tex_id, 33);
    assert_eq!(slots[1].tex_id, 22);
}

#[test]
fn euler_integration_accumulates() {
    // Position (0,0,0), velocity one unit per second along x.
    let mut pool = ParticleDriver::with_capacity(1);
    assert!(pool.add_particle(0, 0, 0, 1, 0, 0, 100 * UNIT, 0, grey()));
    pool.drive(2 * UNIT);
    let (slots, _) = snapshot(&pool);
    assert_eq!((slots[0].xpos, slots[0].ypos, slots[0].zpos), (2 * UNIT, 0, 0));
    pool.drive(UNIT / 2);
    let (slots, _) = snapshot(&pool);
    assert_eq!((slots[0].xpos, slots[0].ypos, slots[0].zpos), (2 * UNIT + UNIT / 2, 0, 0));
    pool.drive(UNIT / 2);
    let (slots, _) = snapshot(&pool);
    assert_eq!((slots[0].xpos, slots[0].ypos, slots[0].zpos), (3 * UNIT, 0, 0));
}

#[test]
fn integration_all_axes() {
    let mut pool = ParticleDriver::with_capacity(1);
    assert!(pool.add_particle(10, 20, 30, 1, -2, 3, 100 * UNIT, 0, grey()));
    pool.drive(100);
    let (slots, _) = snapshot(&pool);
    assert_eq!(slots[0].xpos, 10 + 100);
    assert_eq!(slots[0].ypos, 20 - 200);
    assert_eq!(slots[0].zpos, 30 + 300);
}

#[test]
fn position_saturates_instead_of_wrapping() {
    let mut pool = ParticleDriver::with_capacity(1);
    assert!(pool.add_particle(i64::MAX - 5, 0, 0, i64::MAX, 0, 0, UNIT, 0, grey()));
    pool.drive(i64::MAX);
    let (slots, _) = snapshot(&pool);
    assert_eq!(slots[0].xpos, i64::MAX);
    // The age saturates too, far past the lifetime, so the particle expired.
    assert_eq!(slots[0].age, i64::MAX);
    assert!(!slots[0].active);
}

#[test]
fn negative_dt_ages_backward() {
    let mut pool = ParticleDriver::with_capacity(1);
    assert!(pool.add_particle(UNIT, 0, 0, 1, 0, 0, UNIT, 0, grey()));
    pool.drive(-100);
    let (slots, _) = snapshot(&pool);
    assert!(slots[0].active);
    assert_eq!(slots[0].age, -100);
    assert_eq!(slots[0].xpos, UNIT - 100);
}

#[test]
fn zero_lifetime_expires_on_first_tick() {
    let mut pool = ParticleDriver::with_capacity(1);
    assert!(spawn_still(&mut pool, 0, 0));
    assert!(pool.has_particles());
    pool.drive(1);
    assert!(!pool.has_particles());
}

#[test]
fn clear_resets_fully() {
    let mut pool = ParticleDriver::with_capacity(8);
    for i in 0..5 {
        assert!(spawn_still(&mut pool, 10 * UNIT, i));
    }
    pool.drive(100);
    pool.clear();
    assert!(!pool.has_particles());
    let (slots, mark) = snapshot(&pool);
    assert_eq!(mark, 0);
    assert!(slots.iter().all(|p| !p.active));
    // Cleared slots keep their other state; only the flag drops.
    assert_eq!(slots[3].tex_id, 3);
    // A subsequent allocation starts at index 0 again.
    assert!(spawn_still(&mut pool, UNIT, 77));
    let (slots, mark) = snapshot(&pool);
    assert!(slots[0].active);
    assert_eq!(slots[0].tex_id, 77);
    assert_eq!(mark, 1);
}

#[test]
fn end_to_end_small_pool() {
    // Capacity 4, four particles of one second lifetime.
    let mut pool = ParticleDriver::with_capacity(4);
    for i in 0..4 {
        assert!(spawn_still(&mut pool, UNIT, i));
    }
    pool.drive(UNIT / 2);
    let (slots, mark) = snapshot(&pool);
    assert_eq!(mark, 4);
    assert!(slots.iter().all(|p| p.active));
    // Age 1.1 s exceeds the one-second lifetime: everything expires.
    pool.drive(600);
    let (slots, mark) = snapshot(&pool);
    assert_eq!(mark, 0);
    assert!(!pool.has_particles());
    assert!(slots.iter().all(|p| !p.active));
    assert!(spawn_still(&mut pool, UNIT, 9));
    let (slots, _) = snapshot(&pool);
    assert!(slots[0].active);
    assert_eq!(slots[0].tex_id, 9);
}

#[test]
fn allocation_state_is_written_in_full() {
    let mut pool = ParticleDriver::with_capacity(2);
    let color = Rgb { r: 1, g: 2, b: 3 };
    assert!(pool.add_particle(10, 20, 30, -1, -2, -3, 42, 5, color));
    let (slots, mark) = snapshot(&pool);
    assert_eq!(mark, 1);
    let p = slots[0];
    assert!(p.active);
    assert_eq!(p.age, 0);
    assert_eq!(p.lifetime, 42);
    assert_eq!((p.xpos, p.ypos, p.zpos), (10, 20, 30));
    assert_eq!((p.xvel, p.yvel, p.zvel), (-1, -2, -3));
    assert_eq!(p.tex_id, 5);
    assert_eq!(p.color, color);
}

#[test]
fn world_update_drives_the_pool() {
    let mut world = GameWorld::new();
    assert!(world.particles.add_particle(0, 0, 0, 2, 0, 0, UNIT, 0, grey()));
    world.update(500);
    let (slots, mark) = snapshot(&world.particles);
    assert_eq!(mark, 1);
    assert!(slots[0].active);
    assert_eq!(slots[0].age, 500);
    assert_eq!(slots[0].xpos, 1000);
    world.update(600);
    assert!(!world.particles.has_particles());
}

#[test]
fn has_particles_tracks_high_water() {
    let mut pool = ParticleDriver::with_capacity(2);
    assert!(!pool.has_particles());
    assert!(spawn_still(&mut pool, 100, 0));
    assert!(pool.has_particles());
    pool.drive(200);
    assert!(!pool.has_particles());
}
