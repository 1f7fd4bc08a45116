//! The population, pair detection, and the two resolution passes.

use wing_works::particle::Particle;
use wing_works::vec2d::Vec2D;
use wing_works::world::{colliding_pairs, resolve_collisions, resolve_pairs, World};

fn particle(x: i64, y: i64, vx: i64, vy: i64) -> Particle {
    Particle::new(&Vec2D::new(x, y), &Vec2D::new(vx, vy))
}

#[test]
fn test_colliding_pairs_exact() {
    // Three particles in a chain: neighbors overlap, the ends do not.
    let air = vec![
        particle(0, 0, 500, 0),
        particle(150, 0, 0, 0),
        particle(300, 0, -500, 0),
    ];
    let pairs = colliding_pairs(&air);
    assert_eq!(pairs, vec![(0, 1), (1, 2)]);
}

#[test]
fn test_resolve_pairs_changes_velocities() {
    let air = vec![particle(0, 0, 2000, 0), particle(1000, 0, 0, 0)];
    let pairs = vec![(0usize, 1usize)];
    let out = resolve_pairs(air, &pairs);
    assert_eq!(out[0].v, Vec2D::new(0, 0));
    assert_eq!(out[1].v, Vec2D::new(2000, 0));
    assert_eq!(out[0].s, Vec2D::new(0, 0));
    assert_eq!(out[1].s, Vec2D::new(1000, 0));
}

#[test]
fn test_parallel_matches_sequential_disjoint_pairs() {
    // Two colliding pairs that share no particle: the parallel pass must
    // produce exactly the sequential reference result.
    let air = vec![
        particle(0, 0, 1000, 0),
        particle(150, 0, 0, 0),
        particle(100000, 0, -1000, 0),
        particle(100150, 0, 0, 0),
    ];
    let pairs = colliding_pairs(&air);
    assert_eq!(pairs, vec![(0, 1), (2, 3)]);
    let seq = resolve_pairs(air.clone(), &pairs);
    let par = resolve_collisions(air.clone());
    assert_eq!(seq, par);
    assert_ne!(par, air);
}

#[test]
fn test_parallel_matches_sequential_touched_set() {
    // A chain in which the middle particle belongs to two pairs: the set of
    // touched particles must agree with the sequential reference, and every
    // untouched particle must be byte-for-byte identical, even though the
    // middle particle's final velocity may depend on application order.
    let air = vec![
        particle(0, 0, 500, 0),
        particle(150, 0, 0, 0),
        particle(300, 0, -500, 0),
        particle(50000, 0, 777, 0),
    ];
    let pairs = colliding_pairs(&air);
    assert_eq!(pairs, vec![(0, 1), (1, 2)]);
    let seq = resolve_pairs(air.clone(), &pairs);
    let par = resolve_collisions(air.clone());
    assert_eq!(seq.len(), air.len());
    assert_eq!(par.len(), air.len());
    let touched_seq: Vec<usize> = (0..air.len()).filter(|&i| seq[i] != air[i]).collect();
    let touched_par: Vec<usize> = (0..air.len()).filter(|&i| par[i] != air[i]).collect();
    assert_eq!(touched_seq, touched_par);
    for i in 0..air.len() {
        assert_eq!(par[i].mass, air[i].mass);
        assert_eq!(par[i].radius, air[i].radius);
        assert_eq!(par[i].s, air[i].s);
        if !touched_par.contains(&i) {
            assert_eq!(par[i], air[i]);
        }
    }
}

#[test]
fn test_resolve_collisions_no_pairs_identity() {
    // With no colliding pair, phase 1 is the identity on the population.
    let air = vec![particle(0, 0, 500, 0), particle(10000, 0, -500, 0)];
    let out = resolve_collisions(air.clone());
    assert_eq!(out, air);
}

#[test]
fn test_world_population_size() {
    // The population size is invariant over any number of steps.
    let mut world = World::new(25);
    assert_eq!(world.size(), 25);
    for _ in 0..4 {
        assert_eq!(world.positions().len(), 25);
        world.update_positions();
    }
    assert_eq!(world.positions().len(), 25);
    assert_eq!(world.size(), 25);
}

#[test]
fn test_world_new_ranges() {
    // Freshly seeded positions are uniform in [0, 5000) whole units.
    let world = World::new(40);
    let positions = world.positions();
    for pos in &positions {
        assert!(0 <= pos.x && pos.x < 5_000_000);
        assert!(0 <= pos.y && pos.y < 5_000_000);
    }
    // Uniform sampling over twenty-five trillion grid points makes forty
    // coincident draws impossible in practice.
    assert!(positions.iter().any(|p| *p != positions[0]));
}

#[test]
fn test_world_step_moves_particles() {
    // Velocities are seeded over a two-million-point range, so a step of a
    // populated world leaves at least one particle elsewhere.
    let mut world = World::new(50);
    let before = world.positions();
    world.update_positions();
    let after = world.positions();
    assert_eq!(before.len(), after.len());
    assert!((0..before.len()).any(|i| before[i] != after[i]));
}

#[test]
fn test_empty_world() {
    let mut world = World::new(0);
    world.update_positions();
    assert_eq!(world.positions().len(), 0);
}
