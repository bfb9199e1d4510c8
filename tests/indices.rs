use verlet_sim::simulation::{check_pair, check_triple, IndexError, ParticleSimulation};

#[test]
fn check_pair_accepts_distinct_indices() {
    assert_eq!(check_pair(3, 0, 2), Ok(()));
    assert_eq!(check_pair(3, 2, 1), Ok(()));
}

#[test]
fn check_pair_reports_out_of_range_first() {
    assert_eq!(check_pair(3, 3, 0), Err(IndexError::OutOfRange(3)));
    assert_eq!(check_pair(3, 1, 7), Err(IndexError::OutOfRange(7)));
    assert_eq!(check_pair(0, 5, 5), Err(IndexError::OutOfRange(5)));
}

#[test]
fn check_pair_reports_repeated_index() {
    assert_eq!(check_pair(3, 1, 1), Err(IndexError::Repeated(1)));
}

#[test]
fn check_triple_accepts_distinct_indices() {
    assert_eq!(check_triple(3, 0, 1, 2), Ok(()));
    assert_eq!(check_triple(4, 3, 0, 2), Ok(()));
}

#[test]
fn check_triple_reports_each_error() {
    assert_eq!(check_triple(3, 4, 0, 1), Err(IndexError::OutOfRange(4)));
    assert_eq!(check_triple(3, 0, 3, 1), Err(IndexError::OutOfRange(3)));
    assert_eq!(check_triple(3, 0, 1, 9), Err(IndexError::OutOfRange(9)));
    assert_eq!(check_triple(3, 2, 2, 1), Err(IndexError::Repeated(2)));
    assert_eq!(check_triple(3, 0, 1, 0), Err(IndexError::Repeated(0)));
    assert_eq!(check_triple(3, 0, 1, 1), Err(IndexError::Repeated(1)));
}

#[test]
fn particle_indices_are_dense_from_zero() {
    let mut sim: ParticleSimulation<(i32, i32), i32> = ParticleSimulation::new();
    assert_eq!(sim.num_particles(), 0);
    assert_eq!(sim.new_particle((1, 2), false), 0);
    assert_eq!(sim.new_particle((3, 4), true), 1);
    assert_eq!(sim.new_particle((5, 6), false), 2);
    assert_eq!(sim.num_particles(), 3);
    assert_eq!(sim.particle(1), (3, 4));
    assert!(sim.is_fixed(1));
    assert!(!sim.is_fixed(2));
}

#[test]
fn new_simulation_is_empty_with_default_passes() {
    let sim: ParticleSimulation<(i32, i32), i32> = ParticleSimulation::new();
    assert_eq!(sim.num_particles(), 0);
    assert_eq!(sim.num_distance_constraints(), 0);
    assert_eq!(sim.num_angle_constraints(), 0);
    assert_eq!(sim.num_iterations(), verlet_sim::simulation::RELAXATION_ITERATIONS);
    assert_eq!(sim.num_iterations(), 100);
    let custom: ParticleSimulation<(i32, i32), i32> = ParticleSimulation::with_iterations(7);
    assert_eq!(custom.num_iterations(), 7);
}

#[test]
fn explicit_constraints_are_stored_in_order() {
    let mut sim: ParticleSimulation<(i32, i32), i32> = ParticleSimulation::new();
    for k in 0..4 {
        sim.new_particle((k, 0), false);
    }
    sim.new_distance_constrain(0, 1, 10);
    sim.new_distance_constrain(3, 2, 20);
    sim.new_angle_constrain(0, 1, 2, 90);
    assert_eq!(sim.num_distance_constraints(), 2);
    let d = sim.distance_constraint(1);
    assert_eq!((d.particle_a, d.particle_b, d.length), (3, 2, 20));
    let a = sim.angle_constraint(0);
    assert_eq!((a.particle_a, a.particle_b, a.particle_c, a.angle), (0, 1, 2, 90));
}

#[test]
fn set_particle_replaces_one_state() {
    let mut sim: ParticleSimulation<(i32, i32), i32> = ParticleSimulation::new();
    sim.new_particle((0, 0), true);
    sim.new_particle((1, 1), false);
    sim.set_particle(0, (9, 9));
    assert_eq!(sim.particle(0), (9, 9));
    assert_eq!(sim.particle(1), (1, 1));
    assert!(sim.is_fixed(0));
}
