use crate::schedule::{
    angle_calls, apply_call, collision_calls, collision_row, distance_calls, force_calls,
    integration_calls, replay, write_free, KernelCall,
};
use crate::simulation::{
    valid_pair, valid_triple, AngleConstraint, DistanceConstraint, Dynamics, ParticleSimulation,
};
use vstd::prelude::*;

verus! {

/// Every constraint names distinct particles of a store of `n`.
pub open spec fn layout_ok<S>(
    n: int,
    dcs: Seq<DistanceConstraint<S>>,
    acs: Seq<AngleConstraint<S>>,
) -> bool {
    &&& forall|k: int| 0 <= k < dcs.len() ==> valid_pair(
        n,
        #[trigger] dcs[k].particle_a as int,
        dcs[k].particle_b as int,
    )
    &&& forall|k: int| 0 <= k < acs.len() ==> valid_triple(
        n,
        #[trigger] acs[k].particle_a as int,
        acs[k].particle_b as int,
        acs[k].particle_c as int,
    )
}

/// The particles, pairs and constraints that `call` names exist.
pub open spec fn call_in_range<S>(
    n: int,
    dcs: Seq<DistanceConstraint<S>>,
    acs: Seq<AngleConstraint<S>>,
    call: KernelCall,
) -> bool {
    match call {
        KernelCall::Force(i) => i < n,
        KernelCall::Integrate(i) => i < n,
        KernelCall::Collide(i, j) => i < j < n,
        KernelCall::Distance(k) => k < dcs.len(),
        KernelCall::Angle(k) => k < acs.len(),
    }
}

/// Every call of `calls` is in range.
pub open spec fn all_in_range<S>(
    n: int,
    dcs: Seq<DistanceConstraint<S>>,
    acs: Seq<AngleConstraint<S>>,
    calls: Seq<KernelCall>,
) -> bool {
    forall|m: int| 0 <= m < calls.len() ==> call_in_range(n, dcs, acs, #[trigger] calls[m])
}

/// `call` may write particle `i`: the particles it hands to a kernel and
/// takes results for. The vertex of an angle constraint is not among them.
pub open spec fn writes_to<S>(
    dcs: Seq<DistanceConstraint<S>>,
    acs: Seq<AngleConstraint<S>>,
    call: KernelCall,
    i: int,
) -> bool {
    match call {
        KernelCall::Force(j) => j == i,
        KernelCall::Integrate(j) => j == i,
        KernelCall::Collide(a, b) => a == i || b == i,
        KernelCall::Distance(k) => dcs[k as int].particle_a == i || dcs[k as int].particle_b == i,
        KernelCall::Angle(k) => acs[k as int].particle_a == i || acs[k as int].particle_c == i,
    }
}

proof fn lemma_concat_in_range<S>(
    n: int,
    dcs: Seq<DistanceConstraint<S>>,
    acs: Seq<AngleConstraint<S>>,
    a: Seq<KernelCall>,
    b: Seq<KernelCall>,
)
    requires
        all_in_range(n, dcs, acs, a),
        all_in_range(n, dcs, acs, b),
    ensures
        all_in_range(n, dcs, acs, a + b),
{
    assert forall|m: int| 0 <= m < (a + b).len() implies call_in_range(
        n,
        dcs,
        acs,
        #[trigger] (a + b)[m],
    ) by {
        if m >= a.len() {
            assert((a + b)[m] == b[m - a.len()]);
        }
    }
}

proof fn lemma_particle_calls_in_range<S>(
    n: int,
    dcs: Seq<DistanceConstraint<S>>,
    acs: Seq<AngleConstraint<S>>,
    fixed: Seq<bool>,
    i: int,
)
    requires
        i <= n,
    ensures
        all_in_range(n, dcs, acs, force_calls(fixed, i)),
        all_in_range(n, dcs, acs, integration_calls(fixed, i)),
    decreases i,
{
    if i > 0 {
        lemma_particle_calls_in_range(n, dcs, acs, fixed, i - 1);
    }
}

proof fn lemma_collision_row_in_range<S>(
    n: int,
    dcs: Seq<DistanceConstraint<S>>,
    acs: Seq<AngleConstraint<S>>,
    fixed: Seq<bool>,
    i: int,
    j: int,
)
    requires
        0 <= i,
        j <= n <= usize::MAX,
    ensures
        all_in_range(n, dcs, acs, collision_row(fixed, i, j)),
    decreases j - i,
{
    if j > i + 1 {
        lemma_collision_row_in_range(n, dcs, acs, fixed, i, j - 1);
    }
}

proof fn lemma_collision_calls_in_range<S>(
    n: int,
    dcs: Seq<DistanceConstraint<S>>,
    acs: Seq<AngleConstraint<S>>,
    fixed: Seq<bool>,
    rows: int,
)
    requires
        n <= usize::MAX,
    ensures
        all_in_range(n, dcs, acs, collision_calls(fixed, n, rows)),
    decreases rows,
{
    if rows > 0 {
        lemma_collision_calls_in_range(n, dcs, acs, fixed, rows - 1);
        lemma_collision_row_in_range(n, dcs, acs, fixed, rows - 1, n);
        lemma_concat_in_range(
            n,
            dcs,
            acs,
            collision_calls(fixed, n, rows - 1),
            collision_row(fixed, rows - 1, n),
        );
    }
}

pub proof fn lemma_constraint_calls_in_range<S>(
    n: int,
    dcs: Seq<DistanceConstraint<S>>,
    acs: Seq<AngleConstraint<S>>,
    fixed: Seq<bool>,
    k: int,
)
    ensures
        k <= dcs.len() ==> all_in_range(n, dcs, acs, distance_calls(dcs, fixed, k)),
        k <= acs.len() ==> all_in_range(n, dcs, acs, angle_calls(acs, fixed, k)),
    decreases k,
{
    if k > 0 {
        lemma_constraint_calls_in_range(n, dcs, acs, fixed, k - 1);
    }
}

/// Applying calls that each leave `bodies` as they are leaves them as they are.
proof fn lemma_replay_still<B, S, D: Dynamics<B, S>>(
    world: D,
    fixed: Seq<bool>,
    dcs: Seq<DistanceConstraint<S>>,
    acs: Seq<AngleConstraint<S>>,
    bodies: Seq<B>,
    calls: Seq<KernelCall>,
)
    requires
        forall|m: int| 0 <= m < calls.len() ==> apply_call(world, fixed, dcs, acs, bodies, #[trigger] calls[m])
            == bodies,
    ensures
        replay(world, fixed, dcs, acs, bodies, calls) == bodies,
    decreases calls.len(),
{
    if calls.len() > 0 {
        let prefix = calls.drop_last();
        assert forall|m: int| 0 <= m < prefix.len() implies apply_call(
            world,
            fixed,
            dcs,
            acs,
            bodies,
            #[trigger] prefix[m],
        ) == bodies by {
            assert(prefix[m] == calls[m]);
        }
        lemma_replay_still(world, fixed, dcs, acs, bodies, prefix);
        assert(apply_call(world, fixed, dcs, acs, bodies, calls[calls.len() - 1]) == bodies);
    }
}

/// A particle that is fixed, or that no call writes to, keeps its state
/// through `calls`, and the number of particles stays.
pub proof fn lemma_replay_frame<B, S, D: Dynamics<B, S>>(
    world: D,
    fixed: Seq<bool>,
    dcs: Seq<DistanceConstraint<S>>,
    acs: Seq<AngleConstraint<S>>,
    bodies: Seq<B>,
    calls: Seq<KernelCall>,
    i: int,
)
    requires
        fixed.len() == bodies.len(),
        layout_ok(bodies.len() as int, dcs, acs),
        all_in_range(bodies.len() as int, dcs, acs, calls),
        0 <= i < bodies.len(),
        fixed[i] || forall|m: int| 0 <= m < calls.len() ==> !writes_to(dcs, acs, #[trigger] calls[m], i),
    ensures
        replay(world, fixed, dcs, acs, bodies, calls).len() == bodies.len(),
        replay(world, fixed, dcs, acs, bodies, calls)[i] == bodies[i],
    decreases calls.len(),
{
    if calls.len() > 0 {
        let prefix = calls.drop_last();
        let c = calls.last();
        assert(call_in_range(bodies.len() as int, dcs, acs, calls[calls.len() - 1]));
        assert(fixed[i] || !writes_to(dcs, acs, calls[calls.len() - 1], i));
        assert forall|m: int| 0 <= m < prefix.len() implies call_in_range(
            bodies.len() as int,
            dcs,
            acs,
            #[trigger] prefix[m],
        ) by {
            assert(prefix[m] == calls[m]);
        }
        if !fixed[i] {
            assert forall|m: int| 0 <= m < prefix.len() implies !writes_to(
                dcs,
                acs,
                #[trigger] prefix[m],
                i,
            ) by {
                assert(prefix[m] == calls[m]);
            }
        }
        lemma_replay_frame(world, fixed, dcs, acs, bodies, prefix, i);
        match c {
            KernelCall::Distance(k) => {
                assert(valid_pair(
                    bodies.len() as int,
                    dcs[k as int].particle_a as int,
                    dcs[k as int].particle_b as int,
                ));
            },
            KernelCall::Angle(k) => {
                assert(valid_triple(
                    bodies.len() as int,
                    acs[k as int].particle_a as int,
                    acs[k as int].particle_b as int,
                    acs[k as int].particle_c as int,
                ));
            },
            _ => {},
        }
    }
}

/// The calls of a distance pass are `Distance(k)` for constraints `k`.
pub proof fn lemma_distance_calls_name<S>(
    dcs: Seq<DistanceConstraint<S>>,
    fixed: Seq<bool>,
    k: int,
)
    requires
        k <= dcs.len(),
    ensures
        forall|m: int| 0 <= m < distance_calls(dcs, fixed, k).len() ==> {
            let c = #[trigger] distance_calls(dcs, fixed, k)[m];
            c is Distance && 0 <= c->Distance_0 < k
        },
    decreases k,
{
    if k > 0 {
        lemma_distance_calls_name(dcs, fixed, k - 1);
    }
}

/// The calls of an angle pass are `Angle(k)` for constraints `k`.
pub proof fn lemma_angle_calls_name<S>(acs: Seq<AngleConstraint<S>>, fixed: Seq<bool>, k: int)
    requires
        k <= acs.len(),
    ensures
        forall|m: int| 0 <= m < angle_calls(acs, fixed, k).len() ==> {
            let c = #[trigger] angle_calls(acs, fixed, k)[m];
            c is Angle && 0 <= c->Angle_0 < k
        },
    decreases k,
{
    if k > 0 {
        lemma_angle_calls_name(acs, fixed, k - 1);
    }
}

/// An angle constraint never moves its own vertex: applying constraint `k`
/// to any states of the simulation's particles leaves particle
/// `particle_b` as it was.
pub proof fn lemma_angle_keeps_vertex<B: Copy, S: Copy, D: Dynamics<B, S>>(
    world: D,
    sim: ParticleSimulation<B, S>,
    bodies: Seq<B>,
    k: usize,
)
    requires
        sim.wf(),
        bodies.len() == sim.bodies().len(),
        0 <= k < sim.angle_constraints().len(),
    ensures
        ({
            let v = sim.angle_constraints()[k as int].particle_b as int;
            apply_call(
                world,
                sim.fixed(),
                sim.distance_constraints(),
                sim.angle_constraints(),
                bodies,
                KernelCall::Angle(k),
            )[v] == bodies[v]
        }),
{
    let c = sim.angle_constraints()[k as int];
    assert(valid_triple(
        sim.bodies().len() as int,
        c.particle_a as int,
        c.particle_b as int,
        c.particle_c as int,
    ));
}

/// Every kernel leaves the current states of `sim` as they are: no external
/// force, no velocity, no overlap, and every constraint satisfied.
pub open spec fn at_rest<B: Copy, S: Copy, D: Dynamics<B, S>>(
    world: D,
    sim: ParticleSimulation<B, S>,
) -> bool {
    let b = sim.bodies();
    let dcs = sim.distance_constraints();
    let acs = sim.angle_constraints();
    &&& forall|i: int| 0 <= i < b.len() ==> world.forced(#[trigger] b[i]) == b[i]
    &&& forall|i: int| 0 <= i < b.len() ==> world.confined(world.integrated(#[trigger] b[i])) == b[i]
    &&& forall|i: int, j: int| 0 <= i < j < b.len() ==> #[trigger] world.collided(b[i], b[j]) == (b[i], b[j])
    &&& forall|k: int| 0 <= k < dcs.len() ==> {
        let c = #[trigger] dcs[k];
        world.distance_relaxed(b[c.particle_a as int], b[c.particle_b as int], c.length) == (
            b[c.particle_a as int],
            b[c.particle_b as int],
        )
    }
    &&& forall|k: int| 0 <= k < acs.len() ==> {
        let c = #[trigger] acs[k];
        world.angle_relaxed(
            b[c.particle_a as int],
            b[c.particle_b as int],
            b[c.particle_c as int],
            c.angle,
        ) == (b[c.particle_a as int], b[c.particle_c as int])
    }
}

proof fn lemma_still_call<B: Copy, S: Copy, D: Dynamics<B, S>>(
    world: D,
    sim: ParticleSimulation<B, S>,
    call: KernelCall,
)
    requires
        sim.wf(),
        at_rest(world, sim),
        call_in_range(
            sim.bodies().len() as int,
            sim.distance_constraints(),
            sim.angle_constraints(),
            call,
        ),
    ensures
        apply_call(
            world,
            sim.fixed(),
            sim.distance_constraints(),
            sim.angle_constraints(),
            sim.bodies(),
            call,
        ) == sim.bodies(),
{
    let b = sim.bodies();
    let f = sim.fixed();
    let dcs = sim.distance_constraints();
    let acs = sim.angle_constraints();
    match call {
        KernelCall::Force(i) => {
            assert(world.forced(b[i as int]) == b[i as int]);
            assert(write_free(f, b, i as int, b[i as int]) =~= b);
        },
        KernelCall::Integrate(i) => {
            assert(world.confined(world.integrated(b[i as int])) == b[i as int]);
            assert(write_free(f, b, i as int, b[i as int]) =~= b);
        },
        KernelCall::Collide(i, j) => {
            assert(world.collided(b[i as int], b[j as int]) == (b[i as int], b[j as int]));
            assert(write_free(f, b, i as int, b[i as int]) =~= b);
            assert(write_free(f, b, j as int, b[j as int]) =~= b);
        },
        KernelCall::Distance(k) => {
            let c = dcs[k as int];
            assert(valid_pair(b.len() as int, c.particle_a as int, c.particle_b as int));
            assert(write_free(f, b, c.particle_a as int, b[c.particle_a as int]) =~= b);
            assert(write_free(f, b, c.particle_b as int, b[c.particle_b as int]) =~= b);
        },
        KernelCall::Angle(k) => {
            let c = acs[k as int];
            assert(valid_triple(
                b.len() as int,
                c.particle_a as int,
                c.particle_b as int,
                c.particle_c as int,
            ));
            assert(write_free(f, b, c.particle_a as int, b[c.particle_a as int]) =~= b);
            assert(write_free(f, b, c.particle_c as int, b[c.particle_c as int]) =~= b);
        },
    }
}

proof fn lemma_relax_calls_in_range<B: Copy, S: Copy>(sim: ParticleSimulation<B, S>, passes: int)
    requires
        sim.wf(),
    ensures
        all_in_range(
            sim.bodies().len() as int,
            sim.distance_constraints(),
            sim.angle_constraints(),
            sim.relax_calls(passes),
        ),
    decreases passes,
{
    let n = sim.bodies().len() as int;
    let f = sim.fixed();
    let dcs = sim.distance_constraints();
    let acs = sim.angle_constraints();
    if passes > 0 {
        lemma_relax_calls_in_range(sim, passes - 1);
        lemma_collision_calls_in_range(n, dcs, acs, f, n);
        lemma_constraint_calls_in_range(n, dcs, acs, f, dcs.len() as int);
        lemma_constraint_calls_in_range(n, dcs, acs, f, acs.len() as int);
        let cc = collision_calls(f, n, n);
        let dd = distance_calls(dcs, f, dcs.len() as int);
        let aa = angle_calls(acs, f, acs.len() as int);
        lemma_concat_in_range(n, dcs, acs, cc, dd);
        lemma_concat_in_range(n, dcs, acs, cc + dd, aa);
        lemma_concat_in_range(n, dcs, acs, sim.relax_calls(passes - 1), sim.pass_calls());
    } else {
        assert(sim.relax_calls(passes) =~= Seq::<KernelCall>::empty());
    }
}

/// A step on a simulation at rest changes no particle: with every kernel
/// leaving the current states as they are, the states that `physics_step`
/// produces are the current ones.
pub proof fn lemma_step_at_rest<B: Copy, S: Copy, D: Dynamics<B, S>>(
    world: D,
    sim: ParticleSimulation<B, S>,
)
    requires
        sim.wf(),
        at_rest(world, sim),
    ensures
        sim.replay_on(world, sim.bodies(), sim.step_calls()) == sim.bodies(),
{
    let n = sim.bodies().len() as int;
    let f = sim.fixed();
    let dcs = sim.distance_constraints();
    let acs = sim.angle_constraints();
    let calls = sim.step_calls();
    lemma_particle_calls_in_range(n, dcs, acs, f, n);
    lemma_relax_calls_in_range(sim, sim.iterations() as int);
    let ff = force_calls(f, n);
    let rr = sim.relax_calls(sim.iterations() as int);
    let ii = integration_calls(f, n);
    lemma_concat_in_range(n, dcs, acs, ff, rr);
    lemma_concat_in_range(n, dcs, acs, ff + rr, ii);
    assert forall|m: int| 0 <= m < calls.len() implies apply_call(
        world,
        f,
        dcs,
        acs,
        sim.bodies(),
        #[trigger] calls[m],
    ) == sim.bodies() by {
        lemma_still_call(world, sim, calls[m]);
    }
    lemma_replay_still(world, f, dcs, acs, sim.bodies(), calls);
}

} // verus!
