use compgeom::geometry::{Orientation, Vec2, UNITS_PER_ONE};

fn p(x: f64, y: f64) -> Vec2 {
    let s = UNITS_PER_ONE as f64;
    Vec2::new((x * s).round() as i32, (y * s).round() as i32)
}

/// A value of area (length squared) in grid units.
fn area(v: f64) -> i128 {
    let s = UNITS_PER_ONE as f64;
    (v * s * s).round() as i128
}

#[test]
fn vec2_is_zero() {
    let mut v = p(0.0, 0.0);
    assert!(v.is_zero());

    v = p(4.0, 0.0);
    assert!(!v.is_zero());

    v = Vec2::default();
    assert!(v.is_zero());
}

#[test]
fn vec2_collinearity() {
    let a = p(8.0, -4.0);
    let b = p(-2.0, 1.0);
    assert!(a.collinear(b));
}

#[test]
fn vec2_dot() {
    let a = p(2.0, 5.0);
    let b = p(7.0, -1.0);
    assert_eq!(a.dot(b), area(9.0));
}

#[test]
fn vec2_cw() {
    let mut a = p(0.0, 8.0);
    let mut b = p(2.0, -1.0);
    let mut c = p(1.0, -5.0);
    assert!(Vec2::cw(a, b, c));

    a = p(-2.0, -1.0);
    b = p(4.0, 1.0);
    c = p(-3.0, 2.0);
    assert!(Vec2::ccw(a, b, c));
}

#[test]
fn vec2_shoelace() {
    let a = p(3.0, 4.5);
    let b = p(-2.0, 0.25);
    let c = p(8.0, -3.75);
    assert_eq!(Vec2::shoelace(a, b, c), area(62.5));
}

#[test]
fn vec2_sqr_length_exact() {
    assert_eq!(Vec2::new(6, 3).sqr_length(), 45);
    assert_eq!(Vec2::new(-4, 2).sqr_length(), 20);
    assert_eq!(Vec2::new(0, -5).sqr_length(), 25);
}

#[test]
fn vec2_collinear_vertical_and_zero() {
    // Vertical directions match each other only.
    assert!(Vec2::new(0, 3).collinear(Vec2::new(0, -7)));
    assert!(!Vec2::new(0, 3).collinear(Vec2::new(1, 3)));
    // A zero step counts as vertical.
    assert!(Vec2::new(0, 0).collinear(Vec2::new(0, 5)));
    assert!(!Vec2::new(0, 0).collinear(Vec2::new(2, 5)));
    // Equal slopes, opposite directions.
    assert!(Vec2::new(3, 6).collinear(Vec2::new(-1, -2)));
    assert!(!Vec2::new(3, 6).collinear(Vec2::new(1, 3)));
    assert!(Vec2::new(3, 6).parallel(Vec2::new(-1, -2)));
    assert!(Vec2::new(3, 6).intersects(Vec2::new(1, 3)));
}

#[test]
fn vec2_extreme_coordinates_do_not_overflow() {
    let a = Vec2::new(i32::MIN, i32::MAX);
    let b = Vec2::new(i32::MAX, i32::MIN);
    let c = Vec2::new(i32::MIN, i32::MIN);
    let expected = (a.x as i128) * (b.y as i128) - (b.x as i128) * (a.y as i128)
        + (b.x as i128) * (c.y as i128) - (c.x as i128) * (b.y as i128)
        + (c.x as i128) * (a.y as i128) - (a.x as i128) * (c.y as i128);
    assert_eq!(Vec2::shoelace(a, b, c), expected);
    assert!(Vec2::cw(a, b, c) == (expected < 0));
}

#[test]
fn vec2_random_range_bounds() {
    for _ in 0..200 {
        let v = Vec2::random_range(-5, 7, 10, 12);
        assert!(-5 <= v.x && v.x < 7);
        assert!(10 <= v.y && v.y < 12);
    }
    let u = Vec2::random();
    assert!(0 <= u.x && u.x < UNITS_PER_ONE && 0 <= u.y && u.y < UNITS_PER_ONE);
}

#[test]
fn vec2_bounded() {
    assert!(Vec2::new(268_435_456, -268_435_456).is_bounded());
    assert!(!Vec2::new(268_435_457, 0).is_bounded());
}

#[test]
fn vec2_orientation() {
    let (a, b) = (Vec2::new(0, 0), Vec2::new(4, 0));
    assert_eq!(Vec2::orientation(a, b, Vec2::new(1, 3)), Orientation::Ccw);
    assert_eq!(Vec2::orientation(a, b, Vec2::new(1, -3)), Orientation::Cw);
    assert_eq!(Vec2::orientation(a, b, Vec2::new(9, 0)), Orientation::Collinear);
}

#[test]
fn vec2_randomize_in_place() {
    let mut v = Vec2::new(100, 100);
    v.randomize_range(-3, -1, 5, 6);
    assert!(-3 <= v.x && v.x < -1);
    assert_eq!(v.y, 5);
    v.randomize();
    assert!(0 <= v.x && v.x < UNITS_PER_ONE && 0 <= v.y && v.y < UNITS_PER_ONE);
}
