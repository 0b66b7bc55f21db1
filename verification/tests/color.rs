use wallfacer::color::PlanetColor;

#[test]
fn color_constructors_match_channels() {
    assert_eq!(PlanetColor::new(255, 255, 255, 255), PlanetColor::white());
    assert_eq!(PlanetColor::new(0, 0, 0, 255), PlanetColor::black());
    assert_eq!(PlanetColor::new(255, 0, 0, 255), PlanetColor::red());
    assert_eq!(PlanetColor::new(0, 255, 0, 255), PlanetColor::green());
    assert_eq!(PlanetColor::new(0, 0, 255, 255), PlanetColor::blue());
}

#[test]
fn color_new_stores_channels() {
    let c = PlanetColor::new(150, 14, 21, 200);
    assert_eq!(c.r, 150);
    assert_eq!(c.g, 14);
    assert_eq!(c.b, 21);
    assert_eq!(c.a, 200);
}
