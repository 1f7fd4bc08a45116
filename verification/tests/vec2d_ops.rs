//! Vector arithmetic on the fixed-point grid: 1000 raw units per whole unit.

use wing_works::vec2d::Vec2D;

#[test]
fn test_offset() {
    let v1 = Vec2D { x: 1000, y: 1000 };
    let v2 = Vec2D { x: -1000, y: 0 };
    let v3 = v1.offset(&v2);
    assert_eq!(v3, Vec2D { x: 2000, y: 1000 });
}

#[test]
fn test_adding() {
    let v1 = Vec2D { x: 1000, y: 1000 };
    let v2 = Vec2D { x: -1000, y: 0 };
    let v3 = v1.adding(&v2);
    assert_eq!(v3, Vec2D { x: 0, y: 1000 });
}

#[test]
fn test_add_in_place() {
    let mut v1 = Vec2D { x: 250, y: -4000 };
    let v2 = Vec2D { x: 750, y: 1500 };
    v1.add(&v2);
    assert_eq!(v1, Vec2D { x: 1000, y: -2500 });
}

#[test]
fn test_dot() {
    let d = Vec2D { x: 10000, y: 1000 }.dot(&Vec2D { x: 1000, y: 0 });
    assert_eq!(d, 10000);
    let d = Vec2D { x: 1000, y: 0 }.dot(&Vec2D { x: 1000, y: 0 });
    assert_eq!(d, 1000);
    let d = Vec2D { x: 0, y: 0 }.dot(&Vec2D { x: 1000, y: 0 });
    assert_eq!(d, 0);
    let d = Vec2D { x: 0, y: 1000 }.dot(&Vec2D { x: 1000, y: 0 });
    assert_eq!(d, 0);
}

#[test]
fn test_magnitude() {
    // The magnitude of (1, 1) is the square root of two, 1.414... truncated
    // to the grid.
    assert_eq!(Vec2D { x: 1000, y: 1000 }.magnitude(), 1414);
}

#[test]
fn test_mag_sqr() {
    // (0.2)^2 is 0.04 exactly.
    assert_eq!(Vec2D { x: 200, y: 0 }.mag_sqr(), 40);
    assert_eq!(Vec2D { x: 3000, y: 4000 }.mag_sqr(), 25000);
}

#[test]
fn test_unit() {
    let u = Vec2D { x: 25400, y: 0 }.unit();
    let expected = Vec2D { x: 1000, y: 0 };
    assert_eq!(u, expected);

    let u = Vec2D { x: 3000, y: 4000 }.unit();
    let expected = Vec2D { x: 600, y: 800 };
    assert_eq!(u, expected);

    let u = Vec2D { x: 0, y: 0 }.unit();
    let expected = Vec2D { x: 0, y: 0 };
    assert_eq!(u, expected);
}

#[test]
fn test_scaled() {
    let v = Vec2D { x: 2500, y: 0 }.scaled(400);
    let expected = Vec2D { x: 1000, y: 0 };
    assert_eq!(v, expected);
}
