//! Collision detection and impulse resolution on concrete particles.

use wing_works::particle::Particle;
use wing_works::vec2d::Vec2D;

#[test]
fn test_is_colliding() {
    // Centers a whole unit apart are far outside the 0.2 reach of two
    // default radii, and so is 2.01 units.
    let vzero = Vec2D::new(0, 0);
    let p0 = Particle::new(&Vec2D::new(0, 0), &vzero);
    let p1 = Particle::new(&Vec2D::new(1000, 0), &vzero);
    assert!(!p0.is_colliding(&p1));

    let p2 = Particle::new(&Vec2D::new(2010, 0), &vzero);
    assert!(!p0.is_colliding(&p2));
}

#[test]
fn test_collision_symmetry() {
    let vzero = Vec2D::new(0, 0);
    let cases = [
        (Vec2D::new(0, 0), Vec2D::new(150, 70)),
        (Vec2D::new(-300, 250), Vec2D::new(40, -90)),
        (Vec2D::new(0, 0), Vec2D::new(5000, 5000)),
    ];
    for (sa, sb) in cases.iter() {
        let a = Particle::new(sa, &vzero);
        let b = Particle::new(sb, &vzero);
        assert_eq!(a.is_colliding(&b), b.is_colliding(&a));
    }
}

#[test]
fn test_collision_boundary() {
    // Two default particles have radius 0.1 each; centers exactly 0.2 apart
    // collide, and any representable distance beyond does not.
    let vzero = Vec2D::new(0, 0);
    let a = Particle::new(&Vec2D::new(0, 0), &vzero);
    let at_boundary = Particle::new(&Vec2D::new(200, 0), &vzero);
    assert!(a.is_colliding(&at_boundary));
    let just_beyond = Particle::new(&Vec2D::new(201, 0), &vzero);
    assert!(!a.is_colliding(&just_beyond));
}

#[test]
fn test_get_impulse() {
    let p0 = Particle::new(&Vec2D::new(0, 0), &Vec2D::new(2000, 0));
    let p1 = Particle::new(&Vec2D::new(1000, 0), &Vec2D::new(0, 0));

    let n = p0.s.offset(&p1.s).unit();
    let actual = p0.get_impulse(&p1, &n);
    assert_eq!(actual, 2000);
}

#[test]
fn test_get_impulse_diverging() {
    // The two particles are close enough to be colliding, but p0 is already
    // moving away from p1: the impulse magnitude comes out negative, kept
    // exactly as the formula stands.
    let p0 = Particle::new(&Vec2D::new(1000, 0), &Vec2D::new(2000, 0));
    let p1 = Particle::new(&Vec2D::new(0, 0), &Vec2D::new(0, 0));

    let n = p0.s.offset(&p1.s).unit();
    let actual = p0.get_impulse(&p1, &n);
    assert_eq!(actual, -2000);
}

#[test]
fn test_collide_with_momentum() {
    // Head-on: a moving at 2.0 hits b at rest; a stops, b carries the whole
    // momentum away.
    let mut a = Particle::new(&Vec2D::new(0, 0), &Vec2D::new(2000, 0));
    let mut b = Particle::new(&Vec2D::new(1000, 0), &Vec2D::new(0, 0));
    let sum_before = (a.v.x + b.v.x, a.v.y + b.v.y);
    a.collide_with(&mut b);
    assert_eq!(a.v, Vec2D::new(0, 0));
    assert_eq!(b.v, Vec2D::new(2000, 0));
    assert_eq!((a.v.x + b.v.x, a.v.y + b.v.y), sum_before);
    assert!(a.v.x < 2000);
    assert!(b.v.x > 0);
}

#[test]
fn test_collide_with_oblique_momentum() {
    // An oblique collision: the impulse acts along the 3-4-5 normal, and the
    // componentwise sum of the two velocities is unchanged.
    let mut a = Particle::new(&Vec2D::new(0, 0), &Vec2D::new(1000, 1000));
    let mut b = Particle::new(&Vec2D::new(30, 40), &Vec2D::new(0, 0));
    a.collide_with(&mut b);
    assert_eq!(a.v, Vec2D::new(160, -120));
    assert_eq!(b.v, Vec2D::new(840, 1120));
    assert_eq!(a.v.x + b.v.x, 1000);
    assert_eq!(a.v.y + b.v.y, 1000);
}

#[test]
fn test_collide_with_keeps_mass_radius_position() {
    let mut a = Particle::new(&Vec2D::new(0, 0), &Vec2D::new(2000, 0));
    let mut b = Particle::new(&Vec2D::new(1000, 0), &Vec2D::new(0, 0));
    a.collide_with(&mut b);
    assert_eq!((a.mass, a.radius, a.s), (1000, 100, Vec2D::new(0, 0)));
    assert_eq!((b.mass, b.radius, b.s), (1000, 100, Vec2D::new(1000, 0)));
}

#[test]
fn test_update_position() {
    let mut p = Particle::new(&Vec2D::new(10, 20), &Vec2D::new(5, 7));
    p.update_position();
    assert_eq!(p.s, Vec2D::new(15, 27));
    p.update_position();
    assert_eq!(p.s, Vec2D::new(20, 34));
    assert_eq!(p.v, Vec2D::new(5, 7));
}

#[test]
fn test_update_position_zero_velocity() {
    let mut p = Particle::new(&Vec2D::new(123456, -789), &Vec2D::new(0, 0));
    for _ in 0..5 {
        p.update_position();
    }
    assert_eq!(p.s, Vec2D::new(123456, -789));
}
