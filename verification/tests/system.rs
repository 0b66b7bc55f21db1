use wallfacer::color::PlanetColor;
use wallfacer::planet::Planet;
use wallfacer::system::PlanetSystem;
use wallfacer::vec2::Vec2;

fn body(name: &str, x: i64, y: i64, radius: i64, vx: i64, vy: i64, mass: u64) -> Planet {
    Planet::new(
        name.to_string(),
        Vec2::new(x, y),
        radius,
        Vec2::new(vx, vy),
        mass,
        PlanetColor::white(),
    )
}

#[test]
fn empty_system() {
    let s = PlanetSystem::empty(100_000);
    assert_eq!(s.timestep, 100_000);
    assert_eq!(s.list.len(), 0);
    assert_eq!(s.initial_energy, 0);
}

#[test]
fn add_planet_appends() {
    let mut s = PlanetSystem::empty(100_000);
    s.add_planet(body("a", 0, 0, 1_000_000, 0, 0, 5));
    s.add_planet(body("b", 9_000_000, 0, 1_000_000, 0, 0, 7));
    assert_eq!(s.list.len(), 2);
    assert_eq!(s.list[0].name, "a");
    assert_eq!(s.list[1].mass, 7);
}

#[test]
fn initial_energy_is_captured() {
    // One body of mass 8 at 2 world units/s: m * v^2 / 2 = 16 in
    // fixed-point energy units.
    let b = body("b", 0, 0, 1_000_000, 2_000_000, 0, 8);
    let s = PlanetSystem::from_vec(100_000, vec![b]);
    assert_eq!(s.initial_energy, 16);
    assert_eq!(s.calc_total_energy(), 16);
    assert_eq!(s.energy_drift(), 0);
}

#[test]
fn merge_conserves_momentum() {
    // Masses 1 and 3, velocities (4, 0) and (0, 8), overlapping. The
    // heavier body survives with the momentum-conserving velocity
    // (1*4 + 3*0, 1*0 + 3*8) / 4 = (1, 6), exactly.
    let light = body("light", 0, 0, 1_000_000, 4, 0, 1);
    let heavy = body("heavy", 1_000_000, 0, 1_000_000, 0, 8, 3);
    let mut s = PlanetSystem::from_vec(1, vec![light, heavy]);
    s.update_system();
    assert_eq!(s.list.len(), 1);
    let survivor = &s.list[0];
    assert_eq!(survivor.name, "heavy");
    assert_eq!(survivor.mass, 4);
    assert_eq!(survivor.vel, Vec2::new(1, 6));
    // Momentum before: (1*4 + 3*0, 1*0 + 3*8) = (4, 24); after:
    // 4 * (1, 6) = (4, 24).
    assert_eq!(survivor.mass as i128 * survivor.vel.x as i128, 4);
    assert_eq!(survivor.mass as i128 * survivor.vel.y as i128, 24);
}

#[test]
fn merge_each_body_absorbed_at_most_once() {
    // Three mutually overlapping bodies of masses 1, 2, 3. The scan
    // schedules (1 absorbs 0) and (2 absorbs 1); body 0 cannot be
    // absorbed twice, so exactly two merges run and one body remains
    // with the whole mass.
    let a = body("a", 0, 0, 2_000_000, 0, 0, 1);
    let b = body("b", 1_000_000, 0, 2_000_000, 0, 0, 2);
    let c = body("c", 2_000_000, 0, 2_000_000, 0, 0, 3);
    let mut s = PlanetSystem::from_vec(1, vec![a, b, c]);
    s.update_system();
    assert_eq!(s.list.len(), 1);
    assert_eq!(s.list[0].name, "c");
    assert_eq!(s.list[0].mass, 6);
}

#[test]
fn tick_moves_single_body_by_its_velocity() {
    // A lone body sums forces over nobody (never against itself): its
    // velocity is unchanged and its position advances by v * dt.
    let b = body("lone", 0, 0, 1_000_000, 1_000_000, -2_000_000, 5);
    let mut s = PlanetSystem::from_vec(1_000_000, vec![b]);
    s.update_system();
    assert_eq!(s.list.len(), 1);
    assert_eq!(s.list[0].vel, Vec2::new(1_000_000, -2_000_000));
    assert_eq!(s.list[0].pos, Vec2::new(1_000_000, -2_000_000));
    assert_eq!(s.list[0].accel, Vec2::new(0, 0));
}

#[test]
fn coincident_twins_exert_no_force_and_merge_once() {
    // Two equal-valued bodies at one position: the pair force degrades to
    // zero, and the overlap merges them once. Index identity keeps the
    // bookkeeping sound even though the bodies compare equal in value.
    let a = body("twin", 0, 0, 1_000_000, 3, 4, 10);
    let b = body("twin", 0, 0, 1_000_000, 3, 4, 10);
    let mut s = PlanetSystem::from_vec(1, vec![a, b]);
    s.update_system();
    assert_eq!(s.list.len(), 1);
    assert_eq!(s.list[0].mass, 20);
    assert_eq!(s.list[0].vel, Vec2::new(3, 4));
}

#[test]
fn orbital_step_is_perpendicular() {
    // Body A: mass 10^7 at the origin. Body B: mass 1 at (100, 0) with
    // its circular-orbit velocity (0, -2569). One tick at dt = 0.1: the
    // attraction truncates to zero acceleration, and B moves by
    // v * dt = 256 fixed-point steps, perpendicular to the radius.
    let a = body("anchor", 0, 0, 1_000_000, 0, 0, 10_000_000);
    let b = body("sat", 100_000_000, 0, 1_000_000, 0, 0, 1);
    let v = wallfacer::physics::calc_init_orbital_velocity(&b, &a);
    assert_eq!(v, Vec2::new(0, -2569));
    let b_moving = body("sat", 100_000_000, 0, 1_000_000, v.x, v.y, 1);
    let mut s = PlanetSystem::from_vec(100_000, vec![a, b_moving]);
    s.update_system();
    assert_eq!(s.list.len(), 2);
    assert_eq!(s.list[1].pos, Vec2::new(100_000_000, -256));
    assert_eq!(s.list[1].vel, Vec2::new(0, -2569));
    assert_eq!(s.list[0].pos, Vec2::new(0, 0));
}
