use wallfacer::color::PlanetColor;
use wallfacer::physics::{calc_accel, calc_init_orbital_velocity, check_collision,
    check_escape_velocity};
use wallfacer::planet::Planet;
use wallfacer::vec2::Vec2;

fn body(name: &str, x: i64, y: i64, radius: i64, vx: i64, vy: i64, mass: u64) -> Planet {
    Planet::new(
        name.to_string(),
        Vec2::new(x, y),
        radius,
        Vec2::new(vx, vy),
        mass,
        PlanetColor::white(),
    )
}

#[test]
fn degenerate_distance_gives_zero_acceleration() {
    // Two distinct bodies at identical positions: the direction normalizes
    // to zero, so the acceleration is the zero vector, not a fault.
    let a = body("a", 5_000_000, -3_000_000, 1_000_000, 0, 0, 10);
    let b = body("b", 5_000_000, -3_000_000, 1_000_000, 0, 0, 999);
    let acc = calc_accel(&a, &b);
    assert_eq!(acc, Vec2::new(0, 0));
}

#[test]
fn acceleration_exact_value() {
    // Mass 10^13 at 100 world units: G * m / d^2 = 6.6e-2 world units/s^2,
    // which is 66_000 fixed-point steps, directed along +x.
    let a = body("probe", 0, 0, 1_000_000, 0, 0, 1);
    let b = body("giant", 100_000_000, 0, 1_000_000, 0, 0, 10_000_000_000_000);
    let acc = calc_accel(&a, &b);
    assert_eq!(acc, Vec2::new(66_000, 0));
}

#[test]
fn acceleration_pair_opposes() {
    let a = body("a", 0, 0, 1_000_000, 0, 0, 40_000_000_000_000);
    let b = body("b", 100_000_000, 70_000_000, 1_000_000, 0, 0, 10_000_000_000_000);
    let ab = calc_accel(&a, &b);
    let ba = calc_accel(&b, &a);
    // Newton's third law: the two accelerations point in opposite
    // directions component by component.
    assert!(ab.x as i128 * ba.x as i128 <= 0);
    assert!(ab.y as i128 * ba.y as i128 <= 0);
    assert!(ab.x > 0 && ba.x < 0);
    // Mass-weighted, they cancel to within the fixed-point truncations.
    let ma = 40_000_000_000_000i128;
    let mb = 10_000_000_000_000i128;
    let rx = ma * ab.x as i128 + mb * ba.x as i128;
    let ry = ma * ab.y as i128 + mb * ba.y as i128;
    assert!(rx.abs() < 2 * (ma + mb));
    assert!(ry.abs() < 2 * (ma + mb));
}

#[test]
fn collision_boundary_is_closed() {
    // Radii 5 and 5 with centers exactly 10 apart: tangency counts.
    let a = body("a", 0, 0, 5_000_000, 0, 0, 1);
    let b = body("b", 10_000_000, 0, 5_000_000, 0, 0, 1);
    assert!(check_collision(&a, &b));
    // One fixed-point step further apart: no collision.
    let c = body("c", 10_000_001, 0, 5_000_000, 0, 0, 1);
    assert!(!check_collision(&a, &c));
}

#[test]
fn collision_overlapping_and_distant() {
    let a = body("a", 0, 0, 2_000_000, 0, 0, 1);
    let b = body("b", 1_000_000, 0, 2_000_000, 0, 0, 1);
    assert!(check_collision(&a, &b));
    let far = body("far", 900_000_000, 0, 2_000_000, 0, 0, 1);
    assert!(!check_collision(&a, &far));
}

#[test]
fn escape_velocity_boundary_is_strict() {
    // Anchor of mass 825 at 100 world units: the escape-speed square is
    // exactly 1089 = 33^2 fixed-point steps per second, squared.
    let sun = body("sun", 0, 0, 1_000_000, 0, 0, 825);
    let at_threshold = body("p", 100_000_000, 0, 1_000_000, 33, 0, 1);
    assert!(!check_escape_velocity(&at_threshold, &sun));
    let above = body("q", 100_000_000, 0, 1_000_000, 34, 0, 1);
    assert!(check_escape_velocity(&above, &sun));
}

#[test]
fn escape_velocity_coincident_positions_never_escape() {
    let sun = body("sun", 7, 7, 1_000_000, 0, 0, 1_000_000);
    let p = body("p", 7, 7, 1_000_000, 1_000_000_000, 0, 1);
    assert!(!check_escape_velocity(&p, &sun));
}

#[test]
fn orbital_velocity_exact_value() {
    // sqrt(G * 10^7 / 100) = 2.569e-3 world units/s: 2569 fixed-point
    // steps, perpendicular to the radius vector.
    let sun = body("sun", 0, 0, 1_000_000, 0, 0, 10_000_000);
    let planet = body("planet", 100_000_000, 0, 1_000_000, 0, 0, 1);
    let v = calc_init_orbital_velocity(&planet, &sun);
    assert_eq!(v, Vec2::new(0, -2569));
}
