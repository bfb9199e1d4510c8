use crate::simulation::{AngleConstraint, DistanceConstraint, Dynamics};
use vstd::prelude::*;

verus! {

/// One application of a kernel of `Dynamics` by a simulation.
#[derive(Clone, Copy, Debug, PartialEq, Eq, Structural)]
pub enum KernelCall {
    /// `apply_forces` on a particle.
    Force(usize),
    /// `collide` on a pair of particles, the lower index first.
    Collide(usize, usize),
    /// `relax_distance` for the distance constraint of that creation index.
    Distance(usize),
    /// `relax_angle` for the angle constraint of that creation index.
    Angle(usize),
    /// `integrate` and then `confine` on a particle.
    Integrate(usize),
}

/// `apply_forces` on each free particle among the first `i`, by index.
pub open spec fn force_calls(fixed: Seq<bool>, i: int) -> Seq<KernelCall>
    decreases i,
{
    if i <= 0 {
        seq![]
    } else if fixed[i - 1] {
        force_calls(fixed, i - 1)
    } else {
        force_calls(fixed, i - 1).push(KernelCall::Force((i - 1) as usize))
    }
}

/// Integration of each free particle among the first `i`, by index.
pub open spec fn integration_calls(fixed: Seq<bool>, i: int) -> Seq<KernelCall>
    decreases i,
{
    if i <= 0 {
        seq![]
    } else if fixed[i - 1] {
        integration_calls(fixed, i - 1)
    } else {
        integration_calls(fixed, i - 1).push(KernelCall::Integrate((i - 1) as usize))
    }
}

/// `collide` on the pairs (i, i + 1), ..., (i, j - 1) that are not both fixed.
pub open spec fn collision_row(fixed: Seq<bool>, i: int, j: int) -> Seq<KernelCall>
    decreases j - i,
{
    if j <= i + 1 {
        seq![]
    } else if fixed[i] && fixed[j - 1] {
        collision_row(fixed, i, j - 1)
    } else {
        collision_row(fixed, i, j - 1).push(KernelCall::Collide(i as usize, (j - 1) as usize))
    }
}

/// `collide` on every pair (i, j) with i < rows and i < j < n that is not
/// both fixed, row by row.
pub open spec fn collision_calls(fixed: Seq<bool>, n: int, rows: int) -> Seq<KernelCall>
    decreases rows,
{
    if rows <= 0 {
        seq![]
    } else {
        collision_calls(fixed, n, rows - 1) + collision_row(fixed, rows - 1, n)
    }
}

/// `relax_distance` for each of the first `k` constraints whose endpoints
/// are not both fixed, in creation order.
pub open spec fn distance_calls<S>(
    cs: Seq<DistanceConstraint<S>>,
    fixed: Seq<bool>,
    k: int,
) -> Seq<KernelCall>
    decreases k,
{
    if k <= 0 {
        seq![]
    } else if fixed[cs[k - 1].particle_a as int] && fixed[cs[k - 1].particle_b as int] {
        distance_calls(cs, fixed, k - 1)
    } else {
        distance_calls(cs, fixed, k - 1).push(KernelCall::Distance((k - 1) as usize))
    }
}

/// `relax_angle` for each of the first `k` constraints whose outer particles
/// are not both fixed, in creation order.
pub open spec fn angle_calls<S>(
    cs: Seq<AngleConstraint<S>>,
    fixed: Seq<bool>,
    k: int,
) -> Seq<KernelCall>
    decreases k,
{
    if k <= 0 {
        seq![]
    } else if fixed[cs[k - 1].particle_a as int] && fixed[cs[k - 1].particle_c as int] {
        angle_calls(cs, fixed, k - 1)
    } else {
        angle_calls(cs, fixed, k - 1).push(KernelCall::Angle((k - 1) as usize))
    }
}

/// `bodies` with `body` written at `i`, unless particle `i` is fixed.
pub open spec fn write_free<B>(fixed: Seq<bool>, bodies: Seq<B>, i: int, body: B) -> Seq<B> {
    if fixed[i] {
        bodies
    } else {
        bodies.update(i, body)
    }
}

/// The particle states after one kernel application to `bodies`: the kernel
/// gets the current states of its particles, and its results are written
/// back to those that are free.
pub open spec fn apply_call<B, S, D: Dynamics<B, S>>(
    world: D,
    fixed: Seq<bool>,
    dcs: Seq<DistanceConstraint<S>>,
    acs: Seq<AngleConstraint<S>>,
    bodies: Seq<B>,
    call: KernelCall,
) -> Seq<B> {
    match call {
        KernelCall::Force(i) => write_free(fixed, bodies, i as int, world.forced(bodies[i as int])),
        KernelCall::Integrate(i) => write_free(
            fixed,
            bodies,
            i as int,
            world.confined(world.integrated(bodies[i as int])),
        ),
        KernelCall::Collide(i, j) => {
            let r = world.collided(bodies[i as int], bodies[j as int]);
            write_free(fixed, write_free(fixed, bodies, i as int, r.0), j as int, r.1)
        },
        KernelCall::Distance(k) => {
            let c = dcs[k as int];
            let r = world.distance_relaxed(
                bodies[c.particle_a as int],
                bodies[c.particle_b as int],
                c.length,
            );
            write_free(
                fixed,
                write_free(fixed, bodies, c.particle_a as int, r.0),
                c.particle_b as int,
                r.1,
            )
        },
        KernelCall::Angle(k) => {
            let c = acs[k as int];
            let r = world.angle_relaxed(
                bodies[c.particle_a as int],
                bodies[c.particle_b as int],
                bodies[c.particle_c as int],
                c.angle,
            );
            write_free(
                fixed,
                write_free(fixed, bodies, c.particle_a as int, r.0),
                c.particle_c as int,
                r.1,
            )
        },
    }
}

/// The particle states after applying `calls` in order, starting from `bodies`.
pub open spec fn replay<B, S, D: Dynamics<B, S>>(
    world: D,
    fixed: Seq<bool>,
    dcs: Seq<DistanceConstraint<S>>,
    acs: Seq<AngleConstraint<S>>,
    bodies: Seq<B>,
    calls: Seq<KernelCall>,
) -> Seq<B>
    decreases calls.len(),
{
    if calls.len() == 0 {
        bodies
    } else {
        apply_call(
            world,
            fixed,
            dcs,
            acs,
            replay(world, fixed, dcs, acs, bodies, calls.drop_last()),
            calls.last(),
        )
    }
}

/// Applying `first + second` is applying `first`, then `second`.
pub proof fn lemma_replay_concat<B, S, D: Dynamics<B, S>>(
    world: D,
    fixed: Seq<bool>,
    dcs: Seq<DistanceConstraint<S>>,
    acs: Seq<AngleConstraint<S>>,
    bodies: Seq<B>,
    first: Seq<KernelCall>,
    second: Seq<KernelCall>,
)
    ensures
        replay(world, fixed, dcs, acs, bodies, first + second) == replay(
            world,
            fixed,
            dcs,
            acs,
            replay(world, fixed, dcs, acs, bodies, first),
            second,
        ),
    decreases second.len(),
{
    if second.len() == 0 {
        assert(first + second =~= first);
    } else {
        assert((first + second).drop_last() =~= first + second.drop_last());
        lemma_replay_concat(world, fixed, dcs, acs, bodies, first, second.drop_last());
    }
}

/// Applying `calls` and then `call` is applying `calls.push(call)`.
pub proof fn lemma_replay_push<B, S, D: Dynamics<B, S>>(
    world: D,
    fixed: Seq<bool>,
    dcs: Seq<DistanceConstraint<S>>,
    acs: Seq<AngleConstraint<S>>,
    bodies: Seq<B>,
    calls: Seq<KernelCall>,
    call: KernelCall,
)
    ensures
        replay(world, fixed, dcs, acs, bodies, calls.push(call)) == apply_call(
            world,
            fixed,
            dcs,
            acs,
            replay(world, fixed, dcs, acs, bodies, calls),
            call,
        ),
{
    assert(calls.push(call).drop_last() =~= calls);
}

} // verus!
