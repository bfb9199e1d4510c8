use crate::schedule::{
    angle_calls, collision_calls, collision_row, distance_calls, force_calls, integration_calls,
    lemma_replay_concat, lemma_replay_push, replay, KernelCall,
};
use crate::laws::{
    lemma_angle_calls_name, lemma_constraint_calls_in_range, lemma_distance_calls_name,
    lemma_replay_frame, writes_to,
};
use vstd::prelude::*;

verus! {

/// Relaxation passes run by a simulation built with `new`.
pub const RELAXATION_ITERATIONS: usize = 100;

/// The numerical side of the engine: integration, constraint corrections,
/// collision response and containment of a single body type `B` whose
/// scalar quantities (rest lengths, target angles) have type `S`.
///
/// Each kernel is a function of its arguments alone: its result is its spec
/// counterpart applied to them, and nothing more is assumed of it. The
/// simulation decides which bodies a kernel is applied to and in which
/// order, and which of the results are written back: a fixed particle never
/// takes a kernel's output.
pub trait Dynamics<B, S> {
    /// What `apply_forces` returns.
    spec fn forced(&self, body: B) -> B;

    /// What `integrate` returns.
    spec fn integrated(&self, body: B) -> B;

    /// What `confine` returns.
    spec fn confined(&self, body: B) -> B;

    /// What `collide` returns.
    spec fn collided(&self, a: B, b: B) -> (B, B);

    /// What `relax_distance` returns.
    spec fn distance_relaxed(&self, a: B, b: B, rest: S) -> (B, B);

    /// What `relax_angle` returns.
    spec fn angle_relaxed(&self, a: B, b: B, c: B, target: S) -> (B, B);

    /// What `distance` returns.
    spec fn measured_distance(&self, a: B, b: B) -> S;

    /// What `angle` returns.
    spec fn measured_angle(&self, a: B, b: B, c: B) -> S;

    /// Adds the per-frame external force (gravity) to a body's acceleration.
    fn apply_forces(&self, body: B) -> (r: B)
        ensures
            r == self.forced(body),
    ;

    /// Verlet step of a free body: implicit velocity, acceleration times
    /// the squared timestep, acceleration reset.
    fn integrate(&self, body: B) -> (r: B)
        ensures
            r == self.integrated(body),
    ;

    /// Projects a body back into the containment region, if any.
    fn confine(&self, body: B) -> (r: B)
        ensures
            r == self.confined(body),
    ;

    /// Pushes two overlapping disks apart; returns both bodies unchanged
    /// when they do not overlap.
    fn collide(&self, a: B, b: B) -> (r: (B, B))
        ensures
            r == self.collided(a, b),
    ;

    /// Mass-weighted correction of both endpoints towards the rest length.
    fn relax_distance(&self, a: B, b: B, rest: S) -> (r: (B, B))
        ensures
            r == self.distance_relaxed(a, b, rest),
    ;

    /// New positions of the outer bodies `a` and `c` around the vertex `b`
    /// so that the angle a-b-c takes the target value.
    fn relax_angle(&self, a: B, b: B, c: B, target: S) -> (r: (B, B))
        ensures
            r == self.angle_relaxed(a, b, c, target),
    ;

    /// Current distance between two bodies.
    fn distance(&self, a: B, b: B) -> (r: S)
        ensures
            r == self.measured_distance(a, b),
    ;

    /// Current angle between b->a and b->c.
    fn angle(&self, a: B, b: B, c: B) -> (r: S)
        ensures
            r == self.measured_angle(a, b, c),
    ;
}

/// Holds particles `particle_a` and `particle_b` at distance `length`.
#[derive(Clone, Copy)]
pub struct DistanceConstraint<S> {
    pub particle_a: usize,
    pub particle_b: usize,
    pub length: S,
}

/// Holds the angle at the vertex `particle_b` between `particle_a` and
/// `particle_c` at `angle`.
#[derive(Clone, Copy)]
pub struct AngleConstraint<S> {
    pub particle_a: usize,
    pub particle_b: usize,
    pub particle_c: usize,
    pub angle: S,
}

/// Why a pair or triple of particle indices cannot be used together.
#[derive(Clone, Copy, Debug, PartialEq, Eq, Structural)]
pub enum IndexError {
    /// The index names no particle.
    OutOfRange(usize),
    /// The index occurs twice.
    Repeated(usize),
}

/// An append-only store of particles with the distance and angle
/// constraints between them.
pub struct ParticleSimulation<B, S> {
    bodies: Vec<B>,
    fixed: Vec<bool>,
    distance_constrains: Vec<DistanceConstraint<S>>,
    angle_constrains: Vec<AngleConstraint<S>>,
    iterations: usize,
    log: Ghost<Seq<KernelCall>>,
}

/// Both indices name particles of a store of `n` and differ.
pub open spec fn valid_pair(n: int, a: int, b: int) -> bool {
    0 <= a < n && 0 <= b < n && a != b
}

/// The three indices name particles of a store of `n` and are pairwise distinct.
pub open spec fn valid_triple(n: int, a: int, b: int, c: int) -> bool {
    valid_pair(n, a, b) && valid_pair(n, b, c) && valid_pair(n, a, c)
}

/// The outcome of borrowing `a` and `b` together from a store of `n`
/// particles: the first index out of range, else a repeated index.
pub open spec fn pair_access(n: int, a: int, b: int) -> Result<(), IndexError> {
    if a >= n {
        Err(IndexError::OutOfRange(a as usize))
    } else if b >= n {
        Err(IndexError::OutOfRange(b as usize))
    } else if a == b {
        Err(IndexError::Repeated(b as usize))
    } else {
        Ok(())
    }
}

/// The outcome of borrowing `a`, `b` and `c` together from a store of `n`
/// particles: the first index out of range, else the first index that
/// repeats an earlier one.
pub open spec fn triple_access(n: int, a: int, b: int, c: int) -> Result<(), IndexError> {
    if a >= n {
        Err(IndexError::OutOfRange(a as usize))
    } else if b >= n {
        Err(IndexError::OutOfRange(b as usize))
    } else if c >= n {
        Err(IndexError::OutOfRange(c as usize))
    } else if a == b {
        Err(IndexError::Repeated(b as usize))
    } else if c == a || c == b {
        Err(IndexError::Repeated(c as usize))
    } else {
        Ok(())
    }
}

/// Checks that `a` and `b` can be borrowed together from a store of `n` particles.
pub fn check_pair(n: usize, a: usize, b: usize) -> (r: Result<(), IndexError>)
    ensures
        r == pair_access(n as int, a as int, b as int),
        r is Ok <==> valid_pair(n as int, a as int, b as int),
{
    if a >= n {
        Err(IndexError::OutOfRange(a))
    } else if b >= n {
        Err(IndexError::OutOfRange(b))
    } else if a == b {
        Err(IndexError::Repeated(b))
    } else {
        Ok(())
    }
}

/// Checks that `a`, `b` and `c` can be borrowed together from a store of `n`
/// particles.
pub fn check_triple(n: usize, a: usize, b: usize, c: usize) -> (r: Result<(), IndexError>)
    ensures
        r == triple_access(n as int, a as int, b as int, c as int),
        r is Ok <==> valid_triple(n as int, a as int, b as int, c as int),
{
    if a >= n {
        Err(IndexError::OutOfRange(a))
    } else if b >= n {
        Err(IndexError::OutOfRange(b))
    } else if c >= n {
        Err(IndexError::OutOfRange(c))
    } else if a == b {
        Err(IndexError::Repeated(b))
    } else if c == a || c == b {
        Err(IndexError::Repeated(c))
    } else {
        Ok(())
    }
}

impl<B: Copy, S: Copy> ParticleSimulation<B, S> {
    /// The particles' states, by index.
    pub closed spec fn bodies(&self) -> Seq<B> {
        self.bodies@
    }

    /// Whether each particle is fixed, by index.
    pub closed spec fn fixed(&self) -> Seq<bool> {
        self.fixed@
    }

    /// The distance constraints in creation order.
    pub closed spec fn distance_constraints(&self) -> Seq<DistanceConstraint<S>> {
        self.distance_constrains@
    }

    /// The angle constraints in creation order.
    pub closed spec fn angle_constraints(&self) -> Seq<AngleConstraint<S>> {
        self.angle_constrains@
    }

    /// Relaxation passes per step.
    pub closed spec fn iterations(&self) -> nat {
        self.iterations as nat
    }

    /// Every kernel application made so far, in order.
    pub closed spec fn kernel_log(&self) -> Seq<KernelCall> {
        self.log@
    }

    /// The kernel applications of one relaxation pass: collisions over all
    /// pairs, then the distance constraints, then the angle constraints.
    pub open spec fn pass_calls(&self) -> Seq<KernelCall> {
        collision_calls(self.fixed(), self.bodies().len() as int, self.bodies().len() as int)
            + distance_calls(
            self.distance_constraints(),
            self.fixed(),
            self.distance_constraints().len() as int,
        ) + angle_calls(self.angle_constraints(), self.fixed(), self.angle_constraints().len() as int)
    }

    /// The kernel applications of `passes` relaxation passes.
    pub open spec fn relax_calls(&self, passes: int) -> Seq<KernelCall>
        decreases passes,
    {
        if passes <= 0 {
            seq![]
        } else {
            self.relax_calls(passes - 1) + self.pass_calls()
        }
    }

    /// The particle states after applying `calls` to `bodies` with the flags
    /// and constraints of `self`.
    pub open spec fn replay_on<D: Dynamics<B, S>>(
        &self,
        world: D,
        bodies: Seq<B>,
        calls: Seq<KernelCall>,
    ) -> Seq<B> {
        replay(world, self.fixed(), self.distance_constraints(), self.angle_constraints(), bodies, calls)
    }

    /// The kernel applications of one step.
    pub open spec fn step_calls(&self) -> Seq<KernelCall> {
        force_calls(self.fixed(), self.bodies().len() as int) + self.relax_calls(
            self.iterations() as int,
        ) + integration_calls(self.fixed(), self.bodies().len() as int)
    }

    /// One flag per particle, and every constraint names distinct,
    /// existing particles.
    pub open spec fn wf(&self) -> bool {
        &&& self.bodies().len() == self.fixed().len()
        &&& self.bodies().len() <= usize::MAX
        &&& forall|k: int| 0 <= k < self.distance_constraints().len() ==> valid_pair(
            self.bodies().len() as int,
            #[trigger] self.distance_constraints()[k].particle_a as int,
            self.distance_constraints()[k].particle_b as int,
        )
        &&& forall|k: int| 0 <= k < self.angle_constraints().len() ==> valid_triple(
            self.bodies().len() as int,
            #[trigger] self.angle_constraints()[k].particle_a as int,
            self.angle_constraints()[k].particle_b as int,
            self.angle_constraints()[k].particle_c as int,
        )
    }

    /// `self` has the particles, flags, constraints and settings of `other`,
    /// and every fixed particle's state is the one it had in `other`.
    pub open spec fn keeps_anchors(&self, other: &Self) -> bool {
        &&& self.bodies().len() == other.bodies().len()
        &&& self.fixed() == other.fixed()
        &&& self.distance_constraints() == other.distance_constraints()
        &&& self.angle_constraints() == other.angle_constraints()
        &&& self.iterations() == other.iterations()
        &&& forall|i: int| 0 <= i < other.bodies().len() && #[trigger] other.fixed()[i]
            ==> self.bodies()[i] == other.bodies()[i]
    }

    /// Two simulations with the same particle count, flags and constraints
    /// make the same kernel applications in `passes` relaxation passes.
    proof fn lemma_relax_calls_depend_on_layout(a: Self, b: Self, passes: int)
        requires
            a.bodies().len() == b.bodies().len(),
            a.fixed() == b.fixed(),
            a.distance_constraints() == b.distance_constraints(),
            a.angle_constraints() == b.angle_constraints(),
        ensures
            a.relax_calls(passes) == b.relax_calls(passes),
        decreases passes,
    {
        if passes > 0 {
            Self::lemma_relax_calls_depend_on_layout(a, b, passes - 1);
        }
    }

    /// An empty simulation that runs `RELAXATION_ITERATIONS` passes per step.
    pub fn new() -> (r: Self)
        ensures
            r.wf(),
            r.bodies().len() == 0,
            r.distance_constraints().len() == 0,
            r.angle_constraints().len() == 0,
            r.iterations() == RELAXATION_ITERATIONS,
            r.kernel_log() == Seq::<KernelCall>::empty(),
    {
        Self::with_iterations(RELAXATION_ITERATIONS)
    }

    /// An empty simulation that runs `iterations` passes per step.
    pub fn with_iterations(iterations: usize) -> (r: Self)
        ensures
            r.wf(),
            r.bodies().len() == 0,
            r.distance_constraints().len() == 0,
            r.angle_constraints().len() == 0,
            r.iterations() == iterations,
            r.kernel_log() == Seq::<KernelCall>::empty(),
    {
        ParticleSimulation {
            bodies: Vec::new(),
            fixed: Vec::new(),
            distance_constrains: Vec::new(),
            angle_constrains: Vec::new(),
            iterations,
            log: Ghost(Seq::empty()),
        }
    }

    /// Number of particles.
    pub fn num_particles(&self) -> (r: usize)
        ensures
            r == self.bodies().len(),
    {
        self.bodies.len()
    }

    /// Relaxation passes per step.
    pub fn num_iterations(&self) -> (r: usize)
        ensures
            r == self.iterations(),
    {
        self.iterations
    }

    /// State of particle `i`.
    pub fn particle(&self, i: usize) -> (r: B)
        requires
            i < self.bodies().len(),
        ensures
            r == self.bodies()[i as int],
    {
        self.bodies[i]
    }

    /// Whether particle `i` is fixed.
    pub fn is_fixed(&self, i: usize) -> (r: bool)
        requires
            self.wf(),
            i < self.bodies().len(),
        ensures
            r == self.fixed()[i as int],
    {
        self.fixed[i]
    }

    /// Number of distance constraints.
    pub fn num_distance_constraints(&self) -> (r: usize)
        ensures
            r == self.distance_constraints().len(),
    {
        self.distance_constrains.len()
    }

    /// Distance constraint `k`, in creation order.
    pub fn distance_constraint(&self, k: usize) -> (r: DistanceConstraint<S>)
        requires
            k < self.distance_constraints().len(),
        ensures
            r == self.distance_constraints()[k as int],
    {
        self.distance_constrains[k]
    }

    /// Number of angle constraints.
    pub fn num_angle_constraints(&self) -> (r: usize)
        ensures
            r == self.angle_constraints().len(),
    {
        self.angle_constrains.len()
    }

    /// Angle constraint `k`, in creation order.
    pub fn angle_constraint(&self, k: usize) -> (r: AngleConstraint<S>)
        requires
            k < self.angle_constraints().len(),
        ensures
            r == self.angle_constraints()[k as int],
    {
        self.angle_constrains[k]
    }

    /// Replaces the state of particle `i`, fixed or not: this is how a caller
    /// drags a particle or adds to its acceleration between steps.
    pub fn set_particle(&mut self, i: usize, body: B)
        requires
            old(self).wf(),
            i < old(self).bodies().len(),
        ensures
            final(self).wf(),
            final(self).bodies() == old(self).bodies().update(i as int, body),
            final(self).kernel_log() == old(self).kernel_log(),
            final(self).fixed() == old(self).fixed(),
            final(self).distance_constraints() == old(self).distance_constraints(),
            final(self).angle_constraints() == old(self).angle_constraints(),
            final(self).iterations() == old(self).iterations(),
    {
        self.bodies.set(i, body);
        assert(self.distance_constraints() == old(self).distance_constraints());
        assert(self.angle_constraints() == old(self).angle_constraints());
    }

    /// Appends a particle and returns its index.
    pub fn new_particle(&mut self, body: B, fixed: bool) -> (r: usize)
        requires
            old(self).wf(),
        ensures
            final(self).wf(),
            r == old(self).bodies().len(),
            final(self).bodies() == old(self).bodies().push(body),
            final(self).fixed() == old(self).fixed().push(fixed),
            final(self).kernel_log() == old(self).kernel_log(),
            final(self).distance_constraints() == old(self).distance_constraints(),
            final(self).angle_constraints() == old(self).angle_constraints(),
            final(self).iterations() == old(self).iterations(),
    {
        self.bodies.push(body);
        self.fixed.push(fixed);
        assert(self.distance_constraints() == old(self).distance_constraints());
        assert(self.angle_constraints() == old(self).angle_constraints());
        self.bodies.len() - 1
    }

    /// Adds a distance constraint between `particle_a` and `particle_b`
    /// with the given rest length.
    pub fn new_distance_constrain(&mut self, particle_a: usize, particle_b: usize, length: S)
        requires
            old(self).wf(),
            valid_pair(old(self).bodies().len() as int, particle_a as int, particle_b as int),
        ensures
            final(self).wf(),
            final(self).distance_constraints() == old(self).distance_constraints().push(
                DistanceConstraint { particle_a, particle_b, length },
            ),
            final(self).bodies() == old(self).bodies(),
            final(self).fixed() == old(self).fixed(),
            final(self).kernel_log() == old(self).kernel_log(),
            final(self).angle_constraints() == old(self).angle_constraints(),
            final(self).iterations() == old(self).iterations(),
    {
        self.distance_constrains.push(DistanceConstraint { particle_a, particle_b, length });
        assert(forall|k: int| 0 <= k < old(self).distance_constraints().len() ==>
            self.distance_constraints()[k] == old(self).distance_constraints()[k]);
        assert(self.distance_constraints()[old(self).distance_constraints().len() as int].particle_a
            == particle_a);
        assert(self.angle_constraints() == old(self).angle_constraints());
    }

    /// Adds a distance constraint whose rest length is the current distance
    /// between the two particles.
    pub fn new_distance_constrain_in_place<D: Dynamics<B, S>>(
        &mut self,
        world: &D,
        particle_a: usize,
        particle_b: usize,
    )
        requires
            old(self).wf(),
            valid_pair(old(self).bodies().len() as int, particle_a as int, particle_b as int),
        ensures
            final(self).wf(),
            final(self).distance_constraints().len() == old(self).distance_constraints().len() + 1,
            final(self).distance_constraints().drop_last() == old(self).distance_constraints(),
            final(self).distance_constraints().last().particle_a == particle_a,
            final(self).distance_constraints().last().particle_b == particle_b,
            final(self).distance_constraints().last().length == world.measured_distance(
                old(self).bodies()[particle_a as int],
                old(self).bodies()[particle_b as int],
            ),
            final(self).bodies() == old(self).bodies(),
            final(self).fixed() == old(self).fixed(),
            final(self).kernel_log() == old(self).kernel_log(),
            final(self).angle_constraints() == old(self).angle_constraints(),
            final(self).iterations() == old(self).iterations(),
    {
        let length = world.distance(self.bodies[particle_a], self.bodies[particle_b]);
        self.new_distance_constrain(particle_a, particle_b, length);
        assert(self.distance_constraints().drop_last() =~= old(self).distance_constraints());
    }

    /// Adds an angle constraint with vertex `particle_b` and the given target
    /// angle between b->a and b->c.
    pub fn new_angle_constrain(
        &mut self,
        particle_a: usize,
        particle_b: usize,
        particle_c: usize,
        angle: S,
    )
        requires
            old(self).wf(),
            valid_triple(
                old(self).bodies().len() as int,
                particle_a as int,
                particle_b as int,
                particle_c as int,
            ),
        ensures
            final(self).wf(),
            final(self).angle_constraints() == old(self).angle_constraints().push(
                AngleConstraint { particle_a, particle_b, particle_c, angle },
            ),
            final(self).bodies() == old(self).bodies(),
            final(self).fixed() == old(self).fixed(),
            final(self).kernel_log() == old(self).kernel_log(),
            final(self).distance_constraints() == old(self).distance_constraints(),
            final(self).iterations() == old(self).iterations(),
    {
        self.angle_constrains.push(AngleConstraint { particle_a, particle_b, particle_c, angle });
        assert(forall|k: int| 0 <= k < old(self).angle_constraints().len() ==>
            self.angle_constraints()[k] == old(self).angle_constraints()[k]);
        assert(self.angle_constraints()[old(self).angle_constraints().len() as int].particle_a
            == particle_a);
        assert(self.distance_constraints() == old(self).distance_constraints());
    }

    /// Adds an angle constraint whose target is the current angle at
    /// `particle_b` between b->a and b->c.
    pub fn new_angle_constrain_in_place<D: Dynamics<B, S>>(
        &mut self,
        world: &D,
        particle_a: usize,
        particle_b: usize,
        particle_c: usize,
    )
        requires
            old(self).wf(),
            valid_triple(
                old(self).bodies().len() as int,
                particle_a as int,
                particle_b as int,
                particle_c as int,
            ),
        ensures
            final(self).wf(),
            final(self).angle_constraints().len() == old(self).angle_constraints().len() + 1,
            final(self).angle_constraints().drop_last() == old(self).angle_constraints(),
            final(self).angle_constraints().last().particle_a == particle_a,
            final(self).angle_constraints().last().particle_b == particle_b,
            final(self).angle_constraints().last().particle_c == particle_c,
            final(self).angle_constraints().last().angle == world.measured_angle(
                old(self).bodies()[particle_a as int],
                old(self).bodies()[particle_b as int],
                old(self).bodies()[particle_c as int],
            ),
            final(self).bodies() == old(self).bodies(),
            final(self).fixed() == old(self).fixed(),
            final(self).kernel_log() == old(self).kernel_log(),
            final(self).distance_constraints() == old(self).distance_constraints(),
            final(self).iterations() == old(self).iterations(),
    {
        let angle = world.angle(
            self.bodies[particle_a],
            self.bodies[particle_b],
            self.bodies[particle_c],
        );
        self.new_angle_constrain(particle_a, particle_b, particle_c, angle);
        assert(self.angle_constraints().drop_last() =~= old(self).angle_constraints());
    }

    /// Writes `body` into particle `i` unless it is fixed.
    fn place(&mut self, i: usize, body: B)
        requires
            old(self).wf(),
            i < old(self).bodies().len(),
        ensures
            final(self).wf(),
            final(self).keeps_anchors(old(self)),
            final(self).kernel_log() == old(self).kernel_log(),
            final(self).bodies() == if old(self).fixed()[i as int] {
                old(self).bodies()
            } else {
                old(self).bodies().update(i as int, body)
            },
    {
        if !self.fixed[i] {
            self.set_particle(i, body);
        }
    }

    /// One pass of external forces over the free particles.
    fn apply_forces<D: Dynamics<B, S>>(&mut self, world: &D)
        requires
            old(self).wf(),
        ensures
            final(self).wf(),
            final(self).keeps_anchors(old(self)),
            final(self).kernel_log() == old(self).kernel_log() + force_calls(
                old(self).fixed(),
                old(self).bodies().len() as int,
            ),
            final(self).bodies() == old(self).replay_on(
                *world,
                old(self).bodies(),
                force_calls(old(self).fixed(), old(self).bodies().len() as int),
            ),
    {
        let n = self.bodies.len();
        let mut i: usize = 0;
        while i < n
            invariant
                self.wf(),
                self.keeps_anchors(old(self)),
                n == self.bodies().len(),
                i <= n,
                self.kernel_log() == old(self).kernel_log() + force_calls(self.fixed(), i as int),
                self.bodies() == old(self).replay_on(
                    *world,
                    old(self).bodies(),
                    force_calls(old(self).fixed(), i as int),
                ),
            decreases n - i,
        {
            if !self.fixed[i] {
                let ghost cur = self.bodies();
                let body = world.apply_forces(self.bodies[i]);
                self.log = Ghost(self.log@.push(KernelCall::Force(i)));
                self.place(i, body);
                proof {
                    lemma_replay_push(
                        *world,
                        old(self).fixed(),
                        old(self).distance_constraints(),
                        old(self).angle_constraints(),
                        old(self).bodies(),
                        force_calls(old(self).fixed(), i as int),
                        KernelCall::Force(i),
                    );
                    assert(self.bodies() =~= cur.update(i as int, body));
                }
            }
            assert(self.kernel_log() =~= old(self).kernel_log() + force_calls(
                self.fixed(),
                i + 1,
            ));
            i += 1;
        }
    }

    /// Integrates every free particle and then confines it.
    fn integrate<D: Dynamics<B, S>>(&mut self, world: &D)
        requires
            old(self).wf(),
        ensures
            final(self).wf(),
            final(self).keeps_anchors(old(self)),
            final(self).kernel_log() == old(self).kernel_log() + integration_calls(
                old(self).fixed(),
                old(self).bodies().len() as int,
            ),
            final(self).bodies() == old(self).replay_on(
                *world,
                old(self).bodies(),
                integration_calls(old(self).fixed(), old(self).bodies().len() as int),
            ),
    {
        let n = self.bodies.len();
        let mut i: usize = 0;
        while i < n
            invariant
                self.wf(),
                self.keeps_anchors(old(self)),
                n == self.bodies().len(),
                i <= n,
                self.kernel_log() == old(self).kernel_log() + integration_calls(
                    self.fixed(),
                    i as int,
                ),
                self.bodies() == old(self).replay_on(
                    *world,
                    old(self).bodies(),
                    integration_calls(old(self).fixed(), i as int),
                ),
            decreases n - i,
        {
            if !self.fixed[i] {
                let moved = world.integrate(self.bodies[i]);
                let body = world.confine(moved);
                self.log = Ghost(self.log@.push(KernelCall::Integrate(i)));
                self.place(i, body);
                proof {
                    lemma_replay_push(
                        *world,
                        old(self).fixed(),
                        old(self).distance_constraints(),
                        old(self).angle_constraints(),
                        old(self).bodies(),
                        integration_calls(old(self).fixed(), i as int),
                        KernelCall::Integrate(i),
                    );
                }
            }
            assert(self.kernel_log() =~= old(self).kernel_log() + integration_calls(
                self.fixed(),
                i + 1,
            ));
            i += 1;
        }
    }

    /// Resolves the overlap of every unordered pair of particles, in the
    /// order (0, 1), (0, 2), ..., (1, 2), ...; a pair of fixed particles is
    /// skipped.
    pub fn solve_collisions<D: Dynamics<B, S>>(&mut self, world: &D)
        requires
            old(self).wf(),
        ensures
            final(self).wf(),
            final(self).keeps_anchors(old(self)),
            final(self).kernel_log() == old(self).kernel_log() + collision_calls(
                old(self).fixed(),
                old(self).bodies().len() as int,
                old(self).bodies().len() as int,
            ),
            final(self).bodies() == old(self).replay_on(
                *world,
                old(self).bodies(),
                collision_calls(
                    old(self).fixed(),
                    old(self).bodies().len() as int,
                    old(self).bodies().len() as int,
                ),
            ),
    {
        let n = self.bodies.len();
        let mut i: usize = 0;
        while i < n
            invariant
                self.wf(),
                self.keeps_anchors(old(self)),
                n == self.bodies().len(),
                i <= n,
                self.kernel_log() == old(self).kernel_log() + collision_calls(
                    self.fixed(),
                    n as int,
                    i as int,
                ),
                self.bodies() == old(self).replay_on(
                    *world,
                    old(self).bodies(),
                    collision_calls(old(self).fixed(), n as int, i as int),
                ),
            decreases n - i,
        {
            let mut j: usize = i + 1;
            while j < n
                invariant
                    self.wf(),
                    self.keeps_anchors(old(self)),
                    n == self.bodies().len(),
                    i < j <= n,
                    self.kernel_log() == old(self).kernel_log() + collision_calls(
                        self.fixed(),
                        n as int,
                        i as int,
                    ) + collision_row(self.fixed(), i as int, j as int),
                    self.bodies() == old(self).replay_on(
                        *world,
                        old(self).bodies(),
                        collision_calls(old(self).fixed(), n as int, i as int) + collision_row(
                            old(self).fixed(),
                            i as int,
                            j as int,
                        ),
                    ),
                decreases n - j,
            {
                let fi = self.fixed[i];
                let fj = self.fixed[j];
                if !(fi && fj) {
                    let (a, b) = world.collide(self.bodies[i], self.bodies[j]);
                    self.log = Ghost(self.log@.push(KernelCall::Collide(i, j)));
                    self.place(i, a);
                    self.place(j, b);
                    proof {
                        let before = collision_calls(old(self).fixed(), n as int, i as int)
                            + collision_row(old(self).fixed(), i as int, j as int);
                        lemma_replay_push(
                            *world,
                            old(self).fixed(),
                            old(self).distance_constraints(),
                            old(self).angle_constraints(),
                            old(self).bodies(),
                            before,
                            KernelCall::Collide(i, j),
                        );
                        assert(collision_calls(old(self).fixed(), n as int, i as int) + collision_row(
                            old(self).fixed(),
                            i as int,
                            j + 1,
                        ) =~= before.push(KernelCall::Collide(i, j)));
                    }
                }
                assert(self.kernel_log() =~= old(self).kernel_log() + collision_calls(
                    self.fixed(),
                    n as int,
                    i as int,
                ) + collision_row(self.fixed(), i as int, j + 1));
                j += 1;
            }
            assert(self.kernel_log() =~= old(self).kernel_log() + collision_calls(
                self.fixed(),
                n as int,
                i + 1,
            ));
            i += 1;
        }
    }

    /// Relaxes every distance constraint once, in creation order. A
    /// constraint between two fixed particles is skipped. A particle that is
    /// fixed or in no distance constraint keeps its state.
    pub fn solve_distance_constrains<D: Dynamics<B, S>>(&mut self, world: &D)
        requires
            old(self).wf(),
        ensures
            final(self).wf(),
            final(self).keeps_anchors(old(self)),
            final(self).kernel_log() == old(self).kernel_log() + distance_calls(
                old(self).distance_constraints(),
                old(self).fixed(),
                old(self).distance_constraints().len() as int,
            ),
            final(self).bodies() == old(self).replay_on(
                *world,
                old(self).bodies(),
                distance_calls(
                    old(self).distance_constraints(),
                    old(self).fixed(),
                    old(self).distance_constraints().len() as int,
                ),
            ),
            forall|i: int|
                0 <= i < old(self).bodies().len() && (old(self).fixed()[i] || forall|k: int|
                    0 <= k < old(self).distance_constraints().len() ==> (#[trigger] old(self).distance_constraints()[k]).particle_a != i
                        && old(self).distance_constraints()[k].particle_b != i) ==> #[trigger] final(self).bodies()[i] == old(self).bodies()[i],
    {
        let n = self.distance_constrains.len();
        let mut k: usize = 0;
        while k < n
            invariant
                self.wf(),
                self.keeps_anchors(old(self)),
                n == self.distance_constraints().len(),
                k <= n,
                self.kernel_log() == old(self).kernel_log() + distance_calls(
                    self.distance_constraints(),
                    self.fixed(),
                    k as int,
                ),
                self.bodies() == old(self).replay_on(
                    *world,
                    old(self).bodies(),
                    distance_calls(old(self).distance_constraints(), old(self).fixed(), k as int),
                ),
            decreases n - k,
        {
            let c = self.distance_constrains[k];
            if !(self.fixed[c.particle_a] && self.fixed[c.particle_b]) {
                let (a, b) = world.relax_distance(
                    self.bodies[c.particle_a],
                    self.bodies[c.particle_b],
                    c.length,
                );
                self.log = Ghost(self.log@.push(KernelCall::Distance(k)));
                self.place(c.particle_a, a);
                self.place(c.particle_b, b);
                proof {
                    lemma_replay_push(
                        *world,
                        old(self).fixed(),
                        old(self).distance_constraints(),
                        old(self).angle_constraints(),
                        old(self).bodies(),
                        distance_calls(old(self).distance_constraints(), old(self).fixed(), k as int),
                        KernelCall::Distance(k),
                    );
                }
            }
            assert(self.kernel_log() =~= old(self).kernel_log() + distance_calls(
                self.distance_constraints(),
                self.fixed(),
                k + 1,
            ));
            k += 1;
        }
        proof {
            let f = old(self).fixed();
            let dcs = old(self).distance_constraints();
            let acs = old(self).angle_constraints();
            let calls = distance_calls(dcs, f, dcs.len() as int);
            let nb = old(self).bodies().len() as int;
            lemma_constraint_calls_in_range(nb, dcs, acs, f, dcs.len() as int);
            assert forall|i: int|
                0 <= i < nb && (f[i] || forall|k: int|
                    0 <= k < dcs.len() ==> (#[trigger] dcs[k]).particle_a != i
                        && dcs[k].particle_b != i) implies #[trigger] self.bodies()[i]
                == old(self).bodies()[i] by {
                lemma_distance_calls_name(dcs, f, dcs.len() as int);
                if !f[i] {
                    assert forall|m: int| 0 <= m < calls.len() implies !writes_to(
                        dcs,
                        acs,
                        #[trigger] calls[m],
                        i,
                    ) by {
                        let kk = calls[m]->Distance_0 as int;
                        assert(0 <= kk < dcs.len());
                        assert(dcs[kk].particle_a != i && dcs[kk].particle_b != i);
                    }
                }
                lemma_replay_frame(*world, f, dcs, acs, old(self).bodies(), calls, i);
            }
        }
    }

    /// Relaxes every angle constraint once, in creation order. A constraint
    /// whose outer particles are both fixed is skipped. A particle that is
    /// fixed or the outer particle of no angle constraint (a vertex only)
    /// keeps its state.
    pub fn solve_angle_constrains<D: Dynamics<B, S>>(&mut self, world: &D)
        requires
            old(self).wf(),
        ensures
            final(self).wf(),
            final(self).keeps_anchors(old(self)),
            final(self).kernel_log() == old(self).kernel_log() + angle_calls(
                old(self).angle_constraints(),
                old(self).fixed(),
                old(self).angle_constraints().len() as int,
            ),
            final(self).bodies() == old(self).replay_on(
                *world,
                old(self).bodies(),
                angle_calls(
                    old(self).angle_constraints(),
                    old(self).fixed(),
                    old(self).angle_constraints().len() as int,
                ),
            ),
            forall|i: int|
                0 <= i < old(self).bodies().len() && (old(self).fixed()[i] || forall|k: int|
                    0 <= k < old(self).angle_constraints().len() ==> (#[trigger] old(self).angle_constraints()[k]).particle_a != i
                        && old(self).angle_constraints()[k].particle_c != i) ==> #[trigger] final(self).bodies()[i] == old(self).bodies()[i],
    {
        let n = self.angle_constrains.len();
        let mut k: usize = 0;
        while k < n
            invariant
                self.wf(),
                self.keeps_anchors(old(self)),
                n == self.angle_constraints().len(),
                k <= n,
                self.kernel_log() == old(self).kernel_log() + angle_calls(
                    self.angle_constraints(),
                    self.fixed(),
                    k as int,
                ),
                self.bodies() == old(self).replay_on(
                    *world,
                    old(self).bodies(),
                    angle_calls(old(self).angle_constraints(), old(self).fixed(), k as int),
                ),
            decreases n - k,
        {
            let c = self.angle_constrains[k];
            if !(self.fixed[c.particle_a] && self.fixed[c.particle_c]) {
                let (a, cc) = world.relax_angle(
                    self.bodies[c.particle_a],
                    self.bodies[c.particle_b],
                    self.bodies[c.particle_c],
                    c.angle,
                );
                self.log = Ghost(self.log@.push(KernelCall::Angle(k)));
                self.place(c.particle_a, a);
                self.place(c.particle_c, cc);
                proof {
                    lemma_replay_push(
                        *world,
                        old(self).fixed(),
                        old(self).distance_constraints(),
                        old(self).angle_constraints(),
                        old(self).bodies(),
                        angle_calls(old(self).angle_constraints(), old(self).fixed(), k as int),
                        KernelCall::Angle(k),
                    );
                }
            }
            assert(self.kernel_log() =~= old(self).kernel_log() + angle_calls(
                self.angle_constraints(),
                self.fixed(),
                k + 1,
            ));
            k += 1;
        }
        proof {
            let f = old(self).fixed();
            let dcs = old(self).distance_constraints();
            let acs = old(self).angle_constraints();
            let calls = angle_calls(acs, f, acs.len() as int);
            let nb = old(self).bodies().len() as int;
            lemma_constraint_calls_in_range(nb, dcs, acs, f, acs.len() as int);
            assert forall|i: int|
                0 <= i < nb && (f[i] || forall|k: int|
                    0 <= k < acs.len() ==> (#[trigger] acs[k]).particle_a != i
                        && acs[k].particle_c != i) implies #[trigger] self.bodies()[i]
                == old(self).bodies()[i] by {
                lemma_angle_calls_name(acs, f, acs.len() as int);
                if !f[i] {
                    assert forall|m: int| 0 <= m < calls.len() implies !writes_to(
                        dcs,
                        acs,
                        #[trigger] calls[m],
                        i,
                    ) by {
                        let kk = calls[m]->Angle_0 as int;
                        assert(0 <= kk < acs.len());
                        assert(acs[kk].particle_a != i && acs[kk].particle_c != i);
                    }
                }
                lemma_replay_frame(*world, f, dcs, acs, old(self).bodies(), calls, i);
            }
        }
    }

    /// Runs the configured number of relaxation passes; each pass resolves
    /// collisions over every pair, then the distance constraints, then the
    /// angle constraints, as the kernel log records. The particle states that
    /// result are those of `replay_on` over these applications: each kernel
    /// gets the current states, and its results go to the free particles
    /// among its arguments. Particles, flags and constraints stay as they
    /// are, and no fixed particle changes.
    pub fn relax<D: Dynamics<B, S>>(&mut self, world: &D)
        requires
            old(self).wf(),
        ensures
            final(self).wf(),
            final(self).keeps_anchors(old(self)),
            final(self).kernel_log() == old(self).kernel_log() + old(self).relax_calls(
                old(self).iterations() as int,
            ),
            final(self).bodies() == old(self).replay_on(
                *world,
                old(self).bodies(),
                old(self).relax_calls(old(self).iterations() as int),
            ),
    {
        let mut pass: usize = 0;
        while pass < self.iterations
            invariant
                self.wf(),
                self.keeps_anchors(old(self)),
                pass <= self.iterations,
                self.kernel_log() == old(self).kernel_log() + old(self).relax_calls(pass as int),
                self.bodies() == old(self).replay_on(
                    *world,
                    old(self).bodies(),
                    old(self).relax_calls(pass as int),
                ),
            decreases self.iterations - pass,
        {
            let ghost start = *self;
            self.solve_collisions(world);
            self.solve_distance_constrains(world);
            self.solve_angle_constrains(world);
            assert(start.pass_calls() == old(self).pass_calls());
            assert(self.kernel_log() =~= old(self).kernel_log() + old(self).relax_calls(pass + 1));
            proof {
                let f = old(self).fixed();
                let dcs = old(self).distance_constraints();
                let acs = old(self).angle_constraints();
                let n = old(self).bodies().len() as int;
                let cc = collision_calls(f, n, n);
                let dd = distance_calls(dcs, f, dcs.len() as int);
                let aa = angle_calls(acs, f, acs.len() as int);
                lemma_replay_concat(*world, f, dcs, acs, start.bodies(), cc, dd);
                lemma_replay_concat(*world, f, dcs, acs, start.bodies(), cc + dd, aa);
                lemma_replay_concat(
                    *world,
                    f,
                    dcs,
                    acs,
                    old(self).bodies(),
                    old(self).relax_calls(pass as int),
                    old(self).pass_calls(),
                );
            }
            pass += 1;
        }
    }

    /// Advances the simulation by one timestep: external forces on the free
    /// particles, then the relaxation passes, then integration and
    /// containment of the free particles, each in index order; the kernel
    /// log records exactly these applications, and the particle states that
    /// result are those of `replay_on` over them. Particles, flags and
    /// constraints stay as they are, and no fixed particle changes.
    pub fn physics_step<D: Dynamics<B, S>>(&mut self, world: &D)
        requires
            old(self).wf(),
        ensures
            final(self).wf(),
            final(self).keeps_anchors(old(self)),
            final(self).kernel_log() == old(self).kernel_log() + old(self).step_calls(),
            final(self).bodies() == old(self).replay_on(
                *world,
                old(self).bodies(),
                old(self).step_calls(),
            ),
    {
        self.apply_forces(world);
        let ghost forced = *self;
        self.relax(world);
        self.integrate(world);
        assert(forced.relax_calls(forced.iterations() as int) == old(self).relax_calls(
            old(self).iterations() as int,
        )) by {
            Self::lemma_relax_calls_depend_on_layout(forced, *old(self), old(self).iterations() as int);
        }
        assert(self.kernel_log() =~= old(self).kernel_log() + old(self).step_calls());
        proof {
            let f = old(self).fixed();
            let dcs = old(self).distance_constraints();
            let acs = old(self).angle_constraints();
            let n = old(self).bodies().len() as int;
            let ff = force_calls(f, n);
            let rr = old(self).relax_calls(old(self).iterations() as int);
            let ii = integration_calls(f, n);
            lemma_replay_concat(*world, f, dcs, acs, old(self).bodies(), ff, rr);
            lemma_replay_concat(*world, f, dcs, acs, old(self).bodies(), ff + rr, ii);
        }
    }
}

} // verus!
