use rand::rngs::StdRng;
use rand::SeedableRng;
use verlet_sim::simulation::{Dynamics, ParticleSimulation};
use verlet_sim::structure::{
    generate_tree, Growth, Tree, BRANCH_ANGLE, FULL_TURN, HEADING_DEVIATION, MAX_DEPTH,
    MAX_STRUCTURE_NODES, MAX_TURN, ROOT_HEADING, STEM_MAX, STEM_MIN,
};

/// Bodies are points on an integer lattice; a segment is one unit long in
/// the direction of the nearest quarter turn, so that the tests can follow
/// where each node was placed.
struct Lattice;

impl Dynamics<(i64, i64), i64> for Lattice {
    fn apply_forces(&self, b: (i64, i64)) -> (i64, i64) {
        b
    }
    fn integrate(&self, b: (i64, i64)) -> (i64, i64) {
        b
    }
    fn confine(&self, b: (i64, i64)) -> (i64, i64) {
        b
    }
    fn collide(&self, a: (i64, i64), b: (i64, i64)) -> ((i64, i64), (i64, i64)) {
        (a, b)
    }
    fn relax_distance(&self, a: (i64, i64), b: (i64, i64), _rest: i64) -> ((i64, i64), (i64, i64)) {
        (a, b)
    }
    fn relax_angle(
        &self,
        a: (i64, i64),
        _b: (i64, i64),
        c: (i64, i64),
        _target: i64,
    ) -> ((i64, i64), (i64, i64)) {
        (a, c)
    }
    fn distance(&self, a: (i64, i64), b: (i64, i64)) -> i64 {
        (a.0 - b.0).abs() + (a.1 - b.1).abs()
    }
    fn angle(&self, _a: (i64, i64), _b: (i64, i64), _c: (i64, i64)) -> i64 {
        0
    }

    // The spec counterparts are the kernels themselves.
    fn forced(&self, body: (i64, i64)) -> (i64, i64) {
        self.apply_forces(body)
    }

    fn integrated(&self, body: (i64, i64)) -> (i64, i64) {
        self.integrate(body)
    }

    fn confined(&self, body: (i64, i64)) -> (i64, i64) {
        self.confine(body)
    }

    fn collided(&self, a: (i64, i64), b: (i64, i64)) -> ((i64, i64), (i64, i64)) {
        self.collide(a, b)
    }

    fn distance_relaxed(&self, a: (i64, i64), b: (i64, i64), rest: i64) -> ((i64, i64), (i64, i64)) {
        self.relax_distance(a, b, rest)
    }

    fn angle_relaxed(&self, a: (i64, i64), b: (i64, i64), c: (i64, i64), target: i64) -> ((i64, i64), (i64, i64)) {
        self.relax_angle(a, b, c, target)
    }

    fn measured_distance(&self, a: (i64, i64), b: (i64, i64)) -> i64 {
        self.distance(a, b)
    }

    fn measured_angle(&self, a: (i64, i64), b: (i64, i64), c: (i64, i64)) -> i64 {
        self.angle(a, b, c)
    }
}

impl Growth<(i64, i64)> for Lattice {
    fn sprout(&self, from: (i64, i64), heading: u32, _level: usize) -> (i64, i64) {
        match ((heading + 45000) / 90000) % 4 {
            0 => (from.0 + 1, from.1),
            1 => (from.0, from.1 + 1),
            2 => (from.0 - 1, from.1),
            _ => (from.0, from.1 - 1),
        }
    }

    fn sprouted(&self, from: (i64, i64), heading: u32, level: usize) -> (i64, i64) {
        self.sprout(from, heading, level)
    }
}

fn grow(seed: u64) -> (ParticleSimulation<(i64, i64), i64>, Tree) {
    let mut sim: ParticleSimulation<(i64, i64), i64> = ParticleSimulation::new();
    let mut rng = StdRng::seed_from_u64(seed);
    let tree = generate_tree(&mut sim, &Lattice, &mut rng, (0, 0));
    (sim, tree)
}

#[test]
fn generated_structure_is_a_tree() {
    for seed in 0..40 {
        let (sim, tree) = grow(seed);
        let n = tree.nodes.len();
        assert_eq!(tree.first, 0);
        assert_eq!(sim.num_particles(), n);
        assert!(n >= 1 + STEM_MIN as usize && n <= MAX_STRUCTURE_NODES);
        assert!(tree.nodes[0].parent.is_none());
        assert_eq!(tree.nodes[0].heading, ROOT_HEADING);
        assert!(sim.is_fixed(0));
        for k in 1..n {
            let p = tree.nodes[k].parent.expect("every node but the root has a parent");
            assert!(p < k);
            assert!(!sim.is_fixed(k));
            assert!(tree.nodes[k].level <= MAX_DEPTH);
            assert!(tree.nodes[k].heading < FULL_TURN);
            let lp = tree.nodes[p].level;
            assert!(tree.nodes[k].level == lp || tree.nodes[k].level == lp + 1);
            // Walking parents ends at the root.
            let mut at = k;
            let mut steps = 0;
            while let Some(up) = tree.nodes[at].parent {
                at = up;
                steps += 1;
                assert!(steps <= n);
            }
            assert_eq!(at, 0);
        }
    }
}

#[test]
fn each_node_is_linked_to_its_parent() {
    let (sim, tree) = grow(3);
    let n = tree.nodes.len();
    assert_eq!(sim.num_distance_constraints(), n - 1);
    assert_eq!(sim.num_angle_constraints(), n - 2);
    for k in 1..n {
        let c = sim.distance_constraint(k - 1);
        assert_eq!((c.particle_a, c.particle_b), (tree.nodes[k].parent.unwrap(), k));
        assert_eq!(c.length, 1);
    }
    for k in 2..n {
        let p = tree.nodes[k].parent.unwrap();
        let g = tree.nodes[p].parent.unwrap();
        let c = sim.angle_constraint(k - 2);
        assert_eq!((c.particle_a, c.particle_b, c.particle_c), (g, p, k));
    }
}

#[test]
fn generation_is_deterministic_for_a_seed() {
    let (sim_a, tree_a) = grow(11);
    let (sim_b, tree_b) = grow(11);
    assert_eq!(tree_a.nodes, tree_b.nodes);
    for i in 0..sim_a.num_particles() {
        assert_eq!(sim_a.particle(i), sim_b.particle(i));
    }
}

#[test]
fn trunk_starts_straight_up_from_the_root() {
    let (sim, tree) = grow(5);
    assert_eq!(sim.particle(0), (0, 0));
    assert_eq!(tree.nodes[1].parent, Some(0));
    assert_eq!(tree.nodes[1].level, 0);
    // Within ten degrees of straight up.
    let h = tree.nodes[1].heading;
    assert!((260000..=280000).contains(&h));
    assert_eq!(sim.particle(1), (0, -1));
}

#[test]
fn stems_have_bounded_length() {
    for seed in 0..20 {
        let (_, tree) = grow(seed);
        // Count the run of trunk nodes at level 0 after the root.
        let trunk = tree.nodes.iter().skip(1).take_while(|n| n.level == 0).count();
        assert!(trunk >= STEM_MIN as usize || tree.nodes.len() > trunk + 1);
        assert!(trunk <= STEM_MAX as usize);
    }
}

#[test]
fn structure_appends_to_an_existing_simulation() {
    let mut sim: ParticleSimulation<(i64, i64), i64> = ParticleSimulation::new();
    sim.new_particle((50, 50), false);
    sim.new_particle((60, 50), false);
    sim.new_distance_constrain(0, 1, 10);
    let mut rng = StdRng::seed_from_u64(9);
    let tree = generate_tree(&mut sim, &Lattice, &mut rng, (0, 0));
    assert_eq!(tree.first, 2);
    assert_eq!(sim.num_particles(), 2 + tree.nodes.len());
    assert_eq!(sim.particle(0), (50, 50));
    assert!(sim.is_fixed(2));
    assert!(!sim.is_fixed(0));
    let first = sim.distance_constraint(0);
    assert_eq!((first.particle_a, first.particle_b, first.length), (0, 1, 10));
    let second = sim.distance_constraint(1);
    assert_eq!((second.particle_a, second.particle_b), (2, 3));
}

#[test]
fn headings_follow_each_turn() {
    assert_eq!(MAX_TURN, HEADING_DEVIATION + BRANCH_ANGLE);
    assert_eq!(MAX_TURN, 40000);
    for seed in 0..20 {
        let (_, tree) = grow(seed);
        assert_eq!(tree.nodes[0].turn, 0);
        let mut branched = false;
        for k in 1..tree.nodes.len() {
            let node = tree.nodes[k];
            let parent = tree.nodes[node.parent.unwrap()];
            assert!(node.turn.abs() <= MAX_TURN);
            let expected = (parent.heading as i64 + node.turn as i64).rem_euclid(FULL_TURN as i64);
            assert_eq!(node.heading as i64, expected);
            if node.level == parent.level {
                assert!(node.turn.abs() <= HEADING_DEVIATION);
            } else {
                branched = true;
                assert!(node.turn.abs() >= BRANCH_ANGLE - HEADING_DEVIATION);
            }
        }
        assert!(branched || tree.nodes.len() <= 1 + STEM_MAX as usize);
    }
}

#[test]
fn stems_are_numbered_and_bounded() {
    for seed in 0..30 {
        let (_, tree) = grow(seed);
        assert_eq!(tree.nodes[0].segment, 0);
        for k in 1..tree.nodes.len() {
            let node = tree.nodes[k];
            let p = node.parent.unwrap();
            let parent = tree.nodes[p];
            let starts = p == 0 || node.level == parent.level + 1;
            let expected = if starts { 1 } else { parent.segment + 1 };
            assert_eq!(node.segment, expected);
            assert!(node.segment >= 1 && node.segment <= STEM_MAX);
            if node.level == parent.level + 1 {
                assert!(parent.segment >= 2);
                let off_left = (node.turn - BRANCH_ANGLE).abs();
                let off_right = (node.turn + BRANCH_ANGLE).abs();
                assert!(off_left <= HEADING_DEVIATION || off_right <= HEADING_DEVIATION);
            } else {
                assert!(node.turn.abs() <= HEADING_DEVIATION);
            }
        }
    }
}

#[test]
fn branch_points_start_two_stems_and_tips_end_full_stems() {
    for seed in 0..30 {
        let (_, tree) = grow(seed);
        let n = tree.nodes.len();
        for p in 1..n {
            let children: Vec<usize> = (1..n).filter(|&k| tree.nodes[k].parent == Some(p)).collect();
            let deeper = children.iter().filter(|&&k| tree.nodes[k].level == tree.nodes[p].level + 1).count();
            if deeper > 0 {
                assert_eq!(children.len(), 2);
                assert_eq!(deeper, 2);
                let turns: Vec<i32> = children.iter().map(|&k| tree.nodes[k].turn).collect();
                assert!(turns[0] >= BRANCH_ANGLE - HEADING_DEVIATION);
                assert!(turns[1] <= -BRANCH_ANGLE + HEADING_DEVIATION);
            } else {
                assert!(children.len() <= 1);
                if children.is_empty() {
                    assert!(tree.nodes[p].segment >= STEM_MIN);
                }
            }
        }
    }
}

#[test]
fn each_particle_is_sprouted_from_its_parent() {
    let (sim, tree) = grow(8);
    for k in 1..tree.nodes.len() {
        let node = tree.nodes[k];
        let from = sim.particle(node.parent.unwrap());
        assert_eq!(sim.particle(k), Lattice.sprout(from, node.heading, node.level));
    }
}
