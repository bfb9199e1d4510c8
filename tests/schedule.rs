use std::cell::RefCell;
use verlet_sim::simulation::{Dynamics, ParticleSimulation};

/// Bodies are integers; every kernel adds 1 to the bodies it returns and
/// logs its call, so that the tests can see what was applied and written.
struct Recorder {
    log: RefCell<Vec<String>>,
}

impl Recorder {
    fn new() -> Self {
        Recorder { log: RefCell::new(Vec::new()) }
    }

    fn note(&self, s: String) {
        self.log.borrow_mut().push(s);
    }

    fn calls(&self) -> Vec<String> {
        self.log.borrow().clone()
    }
}

impl Dynamics<i64, i64> for Recorder {
    fn apply_forces(&self, body: i64) -> i64 {
        self.note(format!("force {body}"));
        body + 1
    }

    fn integrate(&self, body: i64) -> i64 {
        self.note(format!("integrate {body}"));
        body + 1
    }

    fn confine(&self, body: i64) -> i64 {
        self.note(format!("confine {body}"));
        body + 1
    }

    fn collide(&self, a: i64, b: i64) -> (i64, i64) {
        self.note(format!("collide {a} {b}"));
        (a + 1, b + 1)
    }

    fn relax_distance(&self, a: i64, b: i64, rest: i64) -> (i64, i64) {
        self.note(format!("distance {a} {b} {rest}"));
        (a + 1, b + 1)
    }

    fn relax_angle(&self, a: i64, b: i64, c: i64, target: i64) -> (i64, i64) {
        self.note(format!("angle {a} {b} {c} {target}"));
        (a + 1, c + 1)
    }

    fn distance(&self, a: i64, b: i64) -> i64 {
        (a - b).abs()
    }

    fn angle(&self, a: i64, b: i64, c: i64) -> i64 {
        a + b + c
    }

    // The spec counterparts are the kernels themselves.
    fn forced(&self, body: i64) -> i64 {
        self.apply_forces(body)
    }

    fn integrated(&self, body: i64) -> i64 {
        self.integrate(body)
    }

    fn confined(&self, body: i64) -> i64 {
        self.confine(body)
    }

    fn collided(&self, a: i64, b: i64) -> (i64, i64) {
        self.collide(a, b)
    }

    fn distance_relaxed(&self, a: i64, b: i64, rest: i64) -> (i64, i64) {
        self.relax_distance(a, b, rest)
    }

    fn angle_relaxed(&self, a: i64, b: i64, c: i64, target: i64) -> (i64, i64) {
        self.relax_angle(a, b, c, target)
    }

    fn measured_distance(&self, a: i64, b: i64) -> i64 {
        self.distance(a, b)
    }

    fn measured_angle(&self, a: i64, b: i64, c: i64) -> i64 {
        self.angle(a, b, c)
    }
}

#[test]
fn step_runs_forces_relaxation_then_integration() {
    let world = Recorder::new();
    let mut sim: ParticleSimulation<i64, i64> = ParticleSimulation::with_iterations(1);
    sim.new_particle(100, false);
    sim.new_particle(200, false);
    sim.new_particle(300, false);
    sim.new_distance_constrain(0, 1, 7);
    sim.new_angle_constrain(0, 1, 2, 9);
    sim.physics_step(&world);
    let expected: Vec<String> = vec![
        "force 100", "force 200", "force 300",
        "collide 101 201", "collide 102 301", "collide 202 302",
        "distance 103 203 7",
        "angle 104 204 303 9",
        "integrate 105", "confine 106",
        "integrate 204", "confine 205",
        "integrate 304", "confine 305",
    ]
    .into_iter()
    .map(String::from)
    .collect();
    assert_eq!(world.calls(), expected);
    assert_eq!(sim.particle(0), 107);
    assert_eq!(sim.particle(1), 206);
    assert_eq!(sim.particle(2), 306);
}

#[test]
fn each_pass_repeats_the_relaxation_sequence() {
    let world = Recorder::new();
    let mut sim: ParticleSimulation<i64, i64> = ParticleSimulation::with_iterations(3);
    sim.new_particle(0, false);
    sim.new_particle(10, false);
    sim.new_distance_constrain(0, 1, 5);
    sim.physics_step(&world);
    let calls = world.calls();
    let kinds: Vec<&str> = calls.iter().map(|c| c.split(' ').next().unwrap()).collect();
    assert_eq!(
        kinds,
        vec![
            "force", "force", "collide", "distance", "collide", "distance", "collide",
            "distance", "integrate", "confine", "integrate", "confine"
        ]
    );
}

#[test]
fn fixed_particles_never_change() {
    let world = Recorder::new();
    let mut sim: ParticleSimulation<i64, i64> = ParticleSimulation::with_iterations(4);
    let anchor = sim.new_particle(1000, true);
    let free = sim.new_particle(0, false);
    let other = sim.new_particle(50, false);
    sim.new_distance_constrain(anchor, free, 3);
    sim.new_angle_constrain(anchor, free, other, 1);
    sim.new_angle_constrain(free, anchor, other, 1);
    for _ in 0..5 {
        sim.physics_step(&world);
    }
    assert_eq!(sim.particle(anchor), 1000);
    assert!(sim.particle(free) > 0);
    assert!(sim.particle(other) > 50);
}

#[test]
fn constraints_between_fixed_particles_are_skipped() {
    let world = Recorder::new();
    let mut sim: ParticleSimulation<i64, i64> = ParticleSimulation::with_iterations(2);
    sim.new_particle(1, true);
    sim.new_particle(2, true);
    sim.new_particle(3, true);
    sim.new_distance_constrain(0, 1, 1);
    sim.new_angle_constrain(0, 1, 2, 1);
    sim.physics_step(&world);
    assert!(world.calls().is_empty());
    assert_eq!((sim.particle(0), sim.particle(1), sim.particle(2)), (1, 2, 3));
}

#[test]
fn angle_vertex_is_never_moved_by_its_constraint() {
    let world = Recorder::new();
    let mut sim: ParticleSimulation<i64, i64> = ParticleSimulation::with_iterations(0);
    sim.new_particle(10, false);
    sim.new_particle(20, false);
    sim.new_particle(30, false);
    sim.new_angle_constrain(0, 1, 2, 0);
    // With no passes only forces and integration run.
    sim.physics_step(&world);
    assert_eq!(world.calls().len(), 9);
    let world = Recorder::new();
    let mut sim: ParticleSimulation<i64, i64> = ParticleSimulation::with_iterations(1);
    sim.new_particle(10, true);
    sim.new_particle(20, false);
    sim.new_particle(30, false);
    sim.new_angle_constrain(1, 0, 2, 0);
    sim.physics_step(&world);
    assert!(world.calls().contains(&"angle 23 10 33 0".to_string()));
    assert_eq!(sim.particle(0), 10);
}

#[test]
fn in_place_constraints_measure_current_state() {
    let world = Recorder::new();
    let mut sim: ParticleSimulation<i64, i64> = ParticleSimulation::new();
    sim.new_particle(4, false);
    sim.new_particle(11, false);
    sim.new_particle(30, false);
    sim.new_distance_constrain_in_place(&world, 0, 1);
    sim.new_angle_constrain_in_place(&world, 0, 1, 2);
    let d = sim.distance_constraint(0);
    assert_eq!((d.particle_a, d.particle_b, d.length), (0, 1, 7));
    let a = sim.angle_constraint(0);
    assert_eq!((a.particle_a, a.particle_b, a.particle_c, a.angle), (0, 1, 2, 45));
}

#[test]
fn distance_pass_leaves_unconstrained_particles_alone() {
    let world = Recorder::new();
    let mut sim: ParticleSimulation<i64, i64> = ParticleSimulation::new();
    sim.new_particle(10, false);
    sim.new_particle(20, false);
    sim.new_particle(30, false);
    sim.new_distance_constrain(0, 1, 4);
    sim.solve_distance_constrains(&world);
    assert_eq!((sim.particle(0), sim.particle(1), sim.particle(2)), (11, 21, 30));
    assert_eq!(world.calls(), vec!["distance 10 20 4".to_string()]);
}

#[test]
fn angle_pass_moves_outer_particles_only() {
    let world = Recorder::new();
    let mut sim: ParticleSimulation<i64, i64> = ParticleSimulation::new();
    sim.new_particle(10, false);
    sim.new_particle(20, false);
    sim.new_particle(30, false);
    sim.new_angle_constrain(0, 1, 2, 3);
    sim.solve_angle_constrains(&world);
    assert_eq!((sim.particle(0), sim.particle(1), sim.particle(2)), (11, 20, 31));
}

#[test]
fn collision_pass_visits_every_pair_once() {
    let world = Recorder::new();
    let mut sim: ParticleSimulation<i64, i64> = ParticleSimulation::new();
    for b in [0, 100, 200, 300] {
        sim.new_particle(b, false);
    }
    sim.solve_collisions(&world);
    assert_eq!(world.calls().len(), 6);
    assert_eq!((sim.particle(0), sim.particle(3)), (3, 303));
}
