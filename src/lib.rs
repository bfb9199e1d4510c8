//! A position-based particle engine: particles integrated with Verlet steps,
//! held together by distance and angle constraints that are relaxed
//! iteratively, with pairwise collision response and containment, and a
//! generator of branching structures built from particles and constraints.
//!
//! The engine is generic over the particle state: the numerical kernels come
//! from the embedding program through `simulation::Dynamics` and
//! `structure::Growth`, while this crate owns the store, the constraint
//! graph, the order of the relaxation passes, and the rule that fixed
//! particles never move.

mod random;
pub mod laws;
pub mod schedule;
pub mod simulation;
pub mod structure;
