//! A small engine in floating point, driven by the library: the library
//! says which bodies pull at which, in which order a tick runs, which pairs
//! a sweep visits and who survives; the arithmetic is done here.

use gravity_sim::merge::MassOrder;
use gravity_sim::pairing::{energy_partners, force_sources};
use gravity_sim::roster::Roster;
use gravity_sim::schedule::{tick_plan, Work};
use gravity_sim::sweep::Sweep;

const MIN_MASS: f64 = 1e-9;
const SENTINEL: [f64; 2] = [1e30, 1e30];

#[derive(Clone, Debug, PartialEq)]
struct Body {
    mass: f64,
    position: [f64; 2],
    velocity: [f64; 2],
    radius: f64,
}

struct World {
    g: f64,
    softening: f64,
    bodies: Vec<Body>,
    roster: Roster,
}

fn world(g: f64, softening: f64, bodies: Vec<Body>) -> World {
    let mut roster = Roster::new();
    for body in bodies.iter() {
        roster.enroll(body.mass > MIN_MASS);
    }
    World { g, softening, bodies, roster }
}

fn pull(g: f64, softening: f64, on: &Body, from: &Body) -> [f64; 2] {
    let dx = from.position[0] - on.position[0];
    let dy = from.position[1] - on.position[1];
    let distance = (dx * dx + dy * dy).sqrt();
    let magnitude = g * ((from.mass * on.mass) / (distance * distance + softening * softening));
    [dx / distance * magnitude, dy / distance * magnitude]
}

fn forces(world: &World) -> Vec<[f64; 2]> {
    (0..world.bodies.len())
        .map(|target| {
            let mut total = [0.0, 0.0];
            for source in force_sources(&world.roster, target) {
                let f = pull(world.g, world.softening, &world.bodies[target], &world.bodies[source]);
                total[0] += f[0];
                total[1] += f[1];
            }
            total
        })
        .collect()
}

fn sweep_collisions(world: &mut World) -> usize {
    let roster = std::mem::replace(&mut world.roster, Roster::new());
    let mut sweep = Sweep::begin(roster);
    while let Some((i, j)) = sweep.candidate() {
        let a = world.bodies[i].clone();
        let b = world.bodies[j].clone();
        let dx = a.position[0] - b.position[0];
        let dy = a.position[1] - b.position[1];
        if (dx * dx + dy * dy).sqrt() < a.radius + b.radius {
            let order = if a.mass > b.mass {
                MassOrder::FirstHeavier
            } else if a.mass == b.mass {
                MassOrder::Equal
            } else {
                MassOrder::SecondHeavier
            };
            let collision = sweep.merge(order).unwrap();
            let total = a.mass + b.mass;
            let merged = Body {
                mass: total,
                position: [
                    (a.position[0] * a.mass + b.position[0] * b.mass) / total,
                    (a.position[1] * a.mass + b.position[1] * b.mass) / total,
                ],
                velocity: [
                    (a.velocity[0] * a.mass + b.velocity[0] * b.mass) / total,
                    (a.velocity[1] * a.mass + b.velocity[1] * b.mass) / total,
                ],
                radius: (a.radius.powi(3) + b.radius.powi(3)).cbrt(),
            };
            world.bodies[collision.survivor] = merged;
            world.bodies[collision.loser].mass = 0.0;
            world.bodies[collision.loser].radius = 0.0;
            world.bodies[collision.loser].position = SENTINEL;
        } else {
            sweep.pass();
        }
    }
    let (roster, collisions) = sweep.finish();
    world.roster = roster;
    collisions
}

fn tick(world: &mut World, dt: f64) -> usize {
    let mut current = Vec::new();
    let mut collisions = 0;
    for work in tick_plan() {
        match work {
            Work::EvaluateForces => current = forces(world),
            Work::HalfKick => {
                for i in 0..world.bodies.len() {
                    if world.roster.is_live(i) {
                        let m = world.bodies[i].mass;
                        world.bodies[i].velocity[0] += 0.5 * (current[i][0] / m) * dt;
                        world.bodies[i].velocity[1] += 0.5 * (current[i][1] / m) * dt;
                    }
                }
            }
            Work::Drift => {
                for i in 0..world.bodies.len() {
                    if world.roster.is_live(i) {
                        world.bodies[i].position[0] += world.bodies[i].velocity[0] * dt;
                        world.bodies[i].position[1] += world.bodies[i].velocity[1] * dt;
                    }
                }
            }
            Work::RefreshKinetic => {}
            Work::SweepCollisions => collisions = sweep_collisions(world),
        }
    }
    collisions
}

fn kinetic(world: &World) -> f64 {
    let mut total = 0.0;
    for (i, body) in world.bodies.iter().enumerate() {
        if world.roster.is_live(i) {
            let speed_squared = body.velocity[0].powi(2) + body.velocity[1].powi(2);
            total += 0.5 * body.mass * speed_squared;
        }
    }
    total
}

fn potential(world: &World) -> f64 {
    let mut total = 0.0;
    for i in 0..world.bodies.len() {
        for j in energy_partners(&world.roster, i) {
            let dx = world.bodies[i].position[0] - world.bodies[j].position[0];
            let dy = world.bodies[i].position[1] - world.bodies[j].position[1];
            total += -world.g * world.bodies[i].mass * world.bodies[j].mass
                / (dx * dx + dy * dy).sqrt();
        }
    }
    total
}

fn momentum(world: &World) -> [f64; 2] {
    let mut total = [0.0, 0.0];
    for (i, body) in world.bodies.iter().enumerate() {
        if world.roster.is_live(i) {
            total[0] += body.mass * body.velocity[0];
            total[1] += body.mass * body.velocity[1];
        }
    }
    total
}

fn total_mass(world: &World) -> f64 {
    world.bodies.iter().map(|body| body.mass).sum()
}

fn point(mass: f64, position: [f64; 2], velocity: [f64; 2]) -> Body {
    Body { mass, position, velocity, radius: 1e-6 }
}

#[test]
fn circular_orbit_keeps_its_energy_and_its_period() {
    let g = 1.0;
    let anchor_mass = 1.0e6;
    let r: f64 = 1.0;
    let speed = (g * anchor_mass / r).sqrt();
    let mut w = world(
        g,
        0.0,
        vec![
            point(anchor_mass, [0.0, 0.0], [0.0, 0.0]),
            point(1.0, [r, 0.0], [0.0, speed]),
        ],
    );
    let period = 2.0 * std::f64::consts::PI * (r.powi(3) / (g * anchor_mass)).sqrt();
    let steps = 20_000;
    let dt = period / steps as f64;
    let initial = kinetic(&w) + potential(&w);
    for step in 0..steps {
        assert_eq!(tick(&mut w, dt), 0);
        if step % 1000 == 0 {
            let now = kinetic(&w) + potential(&w);
            assert!(((now - initial) / initial).abs() < 1e-6, "energy drifted at step {}", step);
        }
    }
    let now = kinetic(&w) + potential(&w);
    assert!(((now - initial) / initial).abs() < 1e-6);
    // after one period the body is back where it began
    let dx = w.bodies[1].position[0] - w.bodies[0].position[0] - r;
    let dy = w.bodies[1].position[1] - w.bodies[0].position[1];
    assert!(dx.abs() < 1e-3 * r, "dx = {}", dx);
    assert!(dy.abs() < 1e-3 * r, "dy = {}", dy);
}

#[test]
fn half_a_period_takes_the_body_to_the_other_side() {
    let g = 1.0;
    let anchor_mass = 1.0e6;
    let r: f64 = 2.0;
    let speed = (g * anchor_mass / r).sqrt();
    let mut w = world(
        g,
        0.0,
        vec![
            point(anchor_mass, [0.0, 0.0], [0.0, 0.0]),
            point(1.0, [r, 0.0], [0.0, speed]),
        ],
    );
    let period = 2.0 * std::f64::consts::PI * (r.powi(3) / (g * anchor_mass)).sqrt();
    let steps = 10_000;
    let dt = 0.5 * period / steps as f64;
    for _ in 0..steps {
        tick(&mut w, dt);
    }
    let dx = w.bodies[1].position[0] - w.bodies[0].position[0] + r;
    let dy = w.bodies[1].position[1] - w.bodies[0].position[1];
    assert!(dx.abs() < 1e-3 * r, "dx = {}", dx);
    assert!(dy.abs() < 1e-3 * r, "dy = {}", dy);
}

#[test]
fn momentum_is_conserved_without_collisions() {
    let mut w = world(
        1.0,
        1e-3,
        vec![
            point(3.0, [0.0, 0.0], [0.1, -0.2]),
            point(2.0, [1.0, 0.5], [-0.3, 0.4]),
            point(5.0, [-0.7, 1.2], [0.2, 0.1]),
            point(1.0, [0.4, -1.5], [0.0, 0.5]),
        ],
    );
    let initial = momentum(&w);
    for _ in 0..5_000 {
        assert_eq!(tick(&mut w, 1e-3), 0);
    }
    let now = momentum(&w);
    assert!((now[0] - initial[0]).abs() < 1e-9, "x: {} against {}", now[0], initial[0]);
    assert!((now[1] - initial[1]).abs() < 1e-9, "y: {} against {}", now[1], initial[1]);
}

#[test]
fn overlapping_bodies_merge_and_keep_their_mass() {
    let mut w = world(
        1.0,
        1e-3,
        vec![
            Body { mass: 2.5, position: [0.0, 0.0], velocity: [1.0, 0.0], radius: 1.0 },
            Body { mass: 4.0, position: [0.5, 0.0], velocity: [-1.0, 0.5], radius: 1.0 },
            Body { mass: 7.0, position: [100.0, 100.0], velocity: [0.0, 0.0], radius: 1.0 },
        ],
    );
    let before = total_mass(&w);
    assert_eq!(sweep_collisions(&mut w), 1);
    assert_eq!(total_mass(&w), before);
    // the heavier body survives with the exact sum, the lighter one is dead
    assert_eq!(w.bodies[1].mass, 2.5 + 4.0);
    assert_eq!(w.bodies[0].mass, 0.0);
    assert_eq!(w.bodies[0].radius, 0.0);
    assert_eq!(w.bodies[0].position, SENTINEL);
    assert!(!w.roster.is_live(0));
    assert!(w.roster.is_live(1));
    assert!(w.roster.is_live(2));
    assert_eq!(w.bodies[1].radius, 2.0_f64.cbrt());
    assert_eq!(w.bodies[1].velocity, [(2.5 - 4.0) / 6.5, 2.0 / 6.5]);
    assert_eq!(w.bodies[2].mass, 7.0);
}

#[test]
fn equal_masses_keep_the_lower_index() {
    let mut w = world(
        1.0,
        1e-3,
        vec![
            Body { mass: 3.0, position: [0.0, 0.0], velocity: [0.0, 0.0], radius: 1.0 },
            Body { mass: 3.0, position: [1.0, 0.0], velocity: [0.0, 0.0], radius: 1.0 },
        ],
    );
    assert_eq!(sweep_collisions(&mut w), 1);
    assert_eq!(w.bodies[0].mass, 6.0);
    assert_eq!(w.bodies[1].mass, 0.0);
    assert_eq!(w.bodies[0].position, [0.5, 0.0]);
}

#[test]
fn three_overlapping_bodies_end_as_one() {
    let mut w = world(
        1.0,
        1e-3,
        vec![
            Body { mass: 1.0, position: [0.0, 0.0], velocity: [0.0, 0.0], radius: 1.0 },
            Body { mass: 2.0, position: [0.1, 0.0], velocity: [0.0, 0.0], radius: 1.0 },
            Body { mass: 4.0, position: [0.2, 0.0], velocity: [0.0, 0.0], radius: 1.0 },
        ],
    );
    // (0, 1) merge into 1; (0, 2) is skipped; (1, 2) merge into 2
    assert_eq!(sweep_collisions(&mut w), 2);
    assert_eq!(w.bodies[0].mass, 0.0);
    assert_eq!(w.bodies[1].mass, 0.0);
    assert_eq!(w.bodies[2].mass, 7.0);
    assert_eq!(w.roster.count_live(), 1);
}

#[test]
fn dead_body_takes_no_part_in_later_ticks() {
    let mut w = world(
        1.0,
        1e-3,
        vec![
            Body { mass: 5.0, position: [0.0, 0.0], velocity: [0.0, 0.0], radius: 1.0 },
            Body { mass: 1.0, position: [0.5, 0.0], velocity: [0.0, 0.0], radius: 1.0 },
            Body { mass: 1.0, position: [50.0, 0.0], velocity: [0.0, 0.0], radius: 1.0 },
        ],
    );
    assert_eq!(tick(&mut w, 1e-3), 1);
    assert!(!w.roster.is_live(1));
    for _ in 0..200 {
        assert_eq!(tick(&mut w, 1e-3), 0);
        assert_eq!(w.bodies[1].mass, 0.0);
        assert_eq!(w.bodies[1].position, SENTINEL);
        assert!(!w.roster.is_live(1));
        assert_eq!(force_sources(&w.roster, 0), vec![2]);
        assert_eq!(force_sources(&w.roster, 1), Vec::<usize>::new());
        assert!(w.bodies[0].position[0].is_finite());
        assert!(w.bodies[2].position[0].is_finite());
    }
    assert_eq!(total_mass(&w), 7.0);
}

#[test]
fn pull_is_equal_and_opposite() {
    let w = world(
        6.674e-11,
        7.4e3,
        vec![
            point(1.9891e30, [3.7e11, 3.7e11], [0.0, 0.0]),
            point(5.9722e24, [5.2e11, 3.6e11], [0.0, 0.0]),
            point(2.2e14, [1.1e11, 4.9e11], [0.0, 0.0]),
        ],
    );
    for a in 0..w.bodies.len() {
        for b in force_sources(&w.roster, a) {
            assert!(force_sources(&w.roster, b).contains(&a));
            let on_a = pull(w.g, w.softening, &w.bodies[a], &w.bodies[b]);
            let on_b = pull(w.g, w.softening, &w.bodies[b], &w.bodies[a]);
            assert_eq!(on_a[0], -on_b[0]);
            assert_eq!(on_a[1], -on_b[1]);
        }
    }
}

#[test]
fn figure_eight_returns_after_one_period() {
    let length = 2.0;
    let mass = 3.0;
    let g = 1.0;
    let speed_scale = (g * mass / length as f64).sqrt();
    let places = [[-0.97000436, 0.24308753], [0.97000436, -0.24308753], [0.0, 0.0]];
    let speeds = [[-0.46620368, -0.43236573], [-0.46620368, -0.43236573], [0.93240737, 0.86473146]];
    let bodies: Vec<Body> = (0..3)
        .map(|i| {
            point(
                mass,
                [length * places[i][0], length * places[i][1]],
                [speed_scale * speeds[i][0], speed_scale * speeds[i][1]],
            )
        })
        .collect();
    let start = bodies.clone();
    let mut w = world(g, 0.0, bodies);
    let reference_period = 6.32591398;
    let period = reference_period * (length.powi(3) / (g * mass)).sqrt();
    let steps = 20_000;
    let dt = period / steps as f64;
    let mut farthest: f64 = 0.0;
    for _ in 0..steps {
        assert_eq!(tick(&mut w, dt), 0);
        let moved = (w.bodies[0].position[0] - start[0].position[0]).abs();
        farthest = farthest.max(moved);
    }
    // the bodies did move, and are back
    assert!(farthest > 0.5 * length);
    for i in 0..3 {
        for axis in 0..2 {
            let off = w.bodies[i].position[axis] - start[i].position[axis];
            assert!(off.abs() < 1e-2 * length, "body {} axis {} off by {}", i, axis, off);
            let off = w.bodies[i].velocity[axis] - start[i].velocity[axis];
            assert!(off.abs() < 1e-2 * speed_scale, "body {} velocity {} off by {}", i, axis, off);
        }
    }
}
