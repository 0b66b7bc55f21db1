use wallfacer::color::PlanetColor;
use wallfacer::planet::Planet;
use wallfacer::vec2::Vec2;

#[test]
fn new_sets_fields_and_marker_acceleration() {
    let p = Planet::new(
        "Earth".to_string(),
        Vec2::new(200_000_000, 200_000_000),
        5_000_000,
        Vec2::new(0, 0),
        100_000,
        PlanetColor::red(),
    );
    assert_eq!(p.name, "Earth");
    assert_eq!(p.pos, Vec2::new(200_000_000, 200_000_000));
    assert_eq!(p.radius, 5_000_000);
    assert_eq!(p.vel, Vec2::new(0, 0));
    assert_eq!(p.mass, 100_000);
    assert_eq!(p.color, PlanetColor::red());
    assert_eq!(p.accel, Vec2::new(1_000_000, 1_000_000));
}

#[test]
fn update_integrates_velocity_before_position() {
    // dt = 0.5 s, acceleration (2, 0) world units/s^2 from rest:
    // v becomes (1, 0) world units/s, then the position moves by
    // v * dt = 0.5 world units, using the new velocity.
    let mut p = Planet::new(
        "p".to_string(),
        Vec2::new(0, 0),
        1_000_000,
        Vec2::new(0, 0),
        5,
        PlanetColor::blue(),
    );
    p.update(500_000, Vec2::new(2_000_000, 0));
    assert_eq!(p.accel, Vec2::new(2_000_000, 0));
    assert_eq!(p.vel, Vec2::new(1_000_000, 0));
    assert_eq!(p.pos, Vec2::new(500_000, 0));
}

#[test]
fn update_truncates_toward_zero() {
    // A negative velocity over a small step truncates toward zero, not
    // toward negative infinity: -2569 * 100_000 / 1_000_000 = -256.
    let mut p = Planet::new(
        "p".to_string(),
        Vec2::new(0, 0),
        1_000_000,
        Vec2::new(0, -2569),
        5,
        PlanetColor::blue(),
    );
    p.update(100_000, Vec2::new(0, 0));
    assert_eq!(p.vel, Vec2::new(0, -2569));
    assert_eq!(p.pos, Vec2::new(0, -256));
}

#[test]
fn satellite_is_placed_in_the_drawn_ring() {
    // The satellite's orbit radius is drawn from [25r, 50r). With a body
    // radius of 2 world units that whole ring lies below the 200-unit
    // base offset, so the satellite sits on the anchor's x axis at the
    // drawn distance, with a purely tangential (negative y) velocity.
    let sun = Planet::new(
        "sun".to_string(),
        Vec2::new(0, 0),
        5_000_000,
        Vec2::new(0, 0),
        10_000_000,
        PlanetColor::white(),
    );
    for _ in 0..16 {
        let sat = Planet::create_satellite(
            &sun,
            "sat".to_string(),
            2_000_000,
            100,
            PlanetColor::green(),
        );
        assert_eq!(sat.name, "sat");
        assert_eq!(sat.mass, 100);
        assert_eq!(sat.radius, 2_000_000);
        assert_eq!(sat.color, PlanetColor::green());
        assert!(sat.pos.x >= 50_000_000 && sat.pos.x < 100_000_000);
        assert_eq!(sat.pos.y, 0);
        assert_eq!(sat.vel.x, 0);
        assert!(sat.vel.y < 0);
    }
}

#[test]
fn satellite_far_ring_is_capped_at_the_base_offset() {
    // With a large body radius the drawn distance exceeds the base x
    // offset of 200 units, so the x offset is capped there and the rest
    // of the distance goes into y.
    let sun = Planet::new(
        "sun".to_string(),
        Vec2::new(0, 0),
        5_000_000,
        Vec2::new(0, 0),
        10_000_000,
        PlanetColor::white(),
    );
    for _ in 0..8 {
        let sat = Planet::create_satellite(
            &sun,
            "far".to_string(),
            20_000_000,
            100,
            PlanetColor::green(),
        );
        // Drawn distance lies in [500, 1000) world units.
        assert_eq!(sat.pos.x, 200_000_000);
        assert!(sat.pos.y > 0);
        let dist_sq = sat.pos.x as i128 * sat.pos.x as i128
            + sat.pos.y as i128 * sat.pos.y as i128;
        let lo = 500_000_000i128 - 1;
        let hi = 1_000_000_000i128;
        assert!(dist_sq >= lo * lo);
        assert!(dist_sq < hi * hi);
    }
}
