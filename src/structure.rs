use crate::random::draw_below;
use crate::simulation::{Dynamics, ParticleSimulation};
use rand::rngs::StdRng;
use vstd::arithmetic::div_mod::lemma_mod_add_multiples_vanish;
use vstd::prelude::*;

verus! {

/// Deepest branching level: a stem at this level does not branch.
pub const MAX_DEPTH: usize = 7;

/// Fewest segments in one stem.
pub const STEM_MIN: u64 = 4;

/// Most segments in one stem.
pub const STEM_MAX: u64 = 10;

/// A full turn, in thousandths of a degree: headings lie in `0..FULL_TURN`.
pub const FULL_TURN: u32 = 360000;

/// Heading of the trunk: straight up on a screen whose y axis points down.
pub const ROOT_HEADING: u32 = 270000;

/// Largest random change of heading from one segment to the next.
pub const HEADING_DEVIATION: i32 = 10000;

/// Turn of each of the two branches away from the stem they leave.
pub const BRANCH_ANGLE: i32 = 30000;

/// Largest change of direction between a node and its parent.
pub const MAX_TURN: i32 = HEADING_DEVIATION + BRANCH_ANGLE;

/// Placement of new segments, supplied by the embedding program.
/// Like the kernels of `Dynamics`, `sprout` is a function of its arguments.
pub trait Growth<B> {
    /// What `sprout` returns.
    spec fn sprouted(&self, from: B, heading: u32, level: usize) -> B;

    /// A free body one segment away from `from` along `heading` (thousandths
    /// of a degree), with the segment length and thickness that belong to
    /// branching level `level`.
    fn sprout(&self, from: B, heading: u32, level: usize) -> (r: B)
        ensures
            r == self.sprouted(from, heading, level),
    ;
}

/// One particle of a generated structure.
#[derive(Clone, Copy, Debug, PartialEq, Eq, Structural)]
pub struct Node {
    /// The node this one grows from, as an index into the same structure;
    /// `None` for the root.
    pub parent: Option<usize>,
    /// Branching level: 0 on the trunk, one more on each branch.
    pub level: usize,
    /// Direction of the segment that ends here, in thousandths of a degree.
    pub heading: u32,
    /// Change of direction from the parent's heading, in thousandths of a
    /// degree; 0 for the root.
    pub turn: i32,
    /// Position in its stem, from 1 for the stem's first segment; 0 for the root.
    pub segment: u64,
}

/// A generated structure: node `k` is particle `first + k` of the
/// simulation it was grown in.
pub struct Tree {
    /// Index of the root's particle.
    pub first: usize,
    /// The nodes in creation order; a parent always precedes its children.
    pub nodes: Vec<Node>,
}

/// Index of a node's parent, or -1 for the root.
pub open spec fn parent_index(n: Node) -> int {
    match n.parent {
        Some(p) => p as int,
        None => -1,
    }
}

/// `h` turned by `delta`, as a heading in `0..FULL_TURN`.
pub open spec fn turned(h: int, delta: int) -> int {
    (h + delta) % (FULL_TURN as int)
}

/// A rooted tree over node indices: node 0 alone has no parent, every other
/// node's parent comes before it, a node is at its parent's level or one
/// deeper, no level exceeds `MAX_DEPTH`, and headings are in range.
pub open spec fn is_tree(nodes: Seq<Node>) -> bool {
    &&& nodes.len() >= 1
    &&& nodes[0].parent is None
    &&& nodes[0].level == 0
    &&& forall|k: int| 1 <= k < nodes.len() ==> 0 <= parent_index(#[trigger] nodes[k]) < k
    &&& forall|k: int| 0 <= k < nodes.len() ==> (#[trigger] nodes[k]).level <= MAX_DEPTH
        && nodes[k].heading < FULL_TURN
    &&& forall|k: int| 1 <= k < nodes.len() ==> {
        let lp = nodes[parent_index(#[trigger] nodes[k])].level;
        nodes[k].level == lp || nodes[k].level == lp + 1
    }
}

/// Every node's heading is its parent's turned by its own `turn`, which is
/// at most `MAX_TURN` either way.
pub open spec fn smooth_headings(nodes: Seq<Node>) -> bool {
    forall|k: int| 1 <= k < nodes.len() ==> {
        &&& -MAX_TURN <= (#[trigger] nodes[k]).turn <= MAX_TURN
        &&& nodes[k].heading == turned(nodes[parent_index(nodes[k])].heading as int, nodes[k].turn as int)
    }
}

/// How stems are laid out: a node starts a stem when it grows from the root
/// or one level deeper than its parent, and otherwise continues its
/// parent's stem. A stem has at most `STEM_MAX` segments and turns by at
/// most `HEADING_DEVIATION` from one segment to the next; a branch grows
/// from the second segment of a stem or later, one level deeper, turned by
/// `BRANCH_ANGLE` to either side (give or take `HEADING_DEVIATION`).
pub open spec fn stem_shape(nodes: Seq<Node>) -> bool {
    forall|k: int| 1 <= k < nodes.len() ==> {
        let n = #[trigger] nodes[k];
        let p = parent_index(n);
        let starts = p == 0 || n.level == nodes[p].level + 1;
        &&& 1 <= n.segment <= STEM_MAX
        &&& n.segment == if starts { 1 } else { nodes[p].segment + 1 }
        &&& n.level == nodes[p].level ==> -HEADING_DEVIATION <= n.turn <= HEADING_DEVIATION
        &&& n.level == nodes[p].level + 1 ==> {
            &&& nodes[p].segment >= 2
            &&& (BRANCH_ANGLE - HEADING_DEVIATION <= n.turn <= BRANCH_ANGLE + HEADING_DEVIATION
                || -BRANCH_ANGLE - HEADING_DEVIATION <= n.turn <= -BRANCH_ANGLE
                + HEADING_DEVIATION)
        }
    }
}

/// Each particle of the structure but the root is what `world.sprout` made
/// of its parent's state, for the node's heading and level.
pub open spec fn sprouted_from<B: Copy, S: Copy, G: Growth<B>>(
    world: G,
    nodes: Seq<Node>,
    sim: ParticleSimulation<B, S>,
    first: int,
) -> bool {
    forall|k: int| 1 <= k < nodes.len() ==> sim.bodies()[first + k] == world.sprouted(
        sim.bodies()[first + parent_index(#[trigger] nodes[k])],
        nodes[k].heading,
        nodes[k].level,
    )
}

/// Only the first segment of the trunk grows from the root.
pub open spec fn single_trunk(nodes: Seq<Node>) -> bool {
    forall|k: int| 2 <= k < nodes.len() ==> parent_index(#[trigger] nodes[k]) >= 1
}

/// `sim` is `before` with the structure `nodes` appended: its root as a fixed
/// particle and every other node as a free one, one distance constraint from
/// each node to its parent, and one angle constraint at each parent that has
/// a parent itself, all in node order.
pub open spec fn embeds<B: Copy, S: Copy>(
    nodes: Seq<Node>,
    sim: ParticleSimulation<B, S>,
    before: ParticleSimulation<B, S>,
) -> bool {
    let first = before.bodies().len() as int;
    let d0 = before.distance_constraints().len() as int;
    let a0 = before.angle_constraints().len() as int;
    &&& sim.wf()
    &&& sim.iterations() == before.iterations()
    &&& sim.bodies().len() == first + nodes.len()
    &&& sim.bodies().subrange(0, first) == before.bodies()
    &&& sim.fixed().subrange(0, first) == before.fixed()
    &&& forall|i: int| first <= i < first + nodes.len() ==> #[trigger] sim.fixed()[i] == (i == first)
    &&& sim.distance_constraints().len() == d0 + nodes.len() - 1
    &&& sim.distance_constraints().subrange(0, d0) == before.distance_constraints()
    &&& forall|j: int| d0 <= j < sim.distance_constraints().len() ==> {
        let k = j - d0 + 1;
        &&& (#[trigger] sim.distance_constraints()[j]).particle_a == first + parent_index(nodes[k])
        &&& sim.distance_constraints()[j].particle_b == first + k
    }
    &&& sim.angle_constraints().len() == a0 + if nodes.len() >= 2 { nodes.len() - 2 } else { 0 }
    &&& sim.angle_constraints().subrange(0, a0) == before.angle_constraints()
    &&& forall|j: int| a0 <= j < sim.angle_constraints().len() ==> {
        let k = j - a0 + 2;
        let p = parent_index(nodes[k]);
        &&& (#[trigger] sim.angle_constraints()[j]).particle_a == first + parent_index(nodes[p])
        &&& sim.angle_constraints()[j].particle_b == first + p
        &&& sim.angle_constraints()[j].particle_c == first + k
    }
}

/// All that a structure under construction keeps true of its nodes and of
/// the simulation it is growing in.
#[verifier::opaque]
spec fn grown<B: Copy, S: Copy, G: Growth<B>>(
    world: G,
    nodes: Seq<Node>,
    sim: ParticleSimulation<B, S>,
    before: ParticleSimulation<B, S>,
) -> bool {
    &&& is_tree(nodes)
    &&& single_trunk(nodes)
    &&& smooth_headings(nodes)
    &&& stem_shape(nodes)
    &&& sprouted_from(world, nodes, sim, before.bodies().len() as int)
    &&& embeds(nodes, sim, before)
}

/// `h` turned by `delta`.
fn turn(h: u32, delta: i32) -> (r: u32)
    requires
        h < FULL_TURN,
        -MAX_TURN <= delta <= MAX_TURN,
    ensures
        r == turned(h as int, delta as int),
        r < FULL_TURN,
{
    let full = FULL_TURN as u64;
    let r = if delta >= 0 {
        (h as u64 + delta as u64) % full
    } else {
        (h as u64 + full - (-(delta as i64)) as u64) % full
    };
    proof {
        lemma_mod_add_multiples_vanish(h + delta, full as int);
    }
    r as u32
}

/// Appends a node at `heading` and `level` that grows from node `parent`,
/// with its particle and constraints; returns the new node's index.
#[verifier::rlimit(100)]
fn add_segment<B: Copy, S: Copy, D: Dynamics<B, S> + Growth<B>>(
    sim: &mut ParticleSimulation<B, S>,
    world: &D,
    nodes: &mut Vec<Node>,
    Ghost(before): Ghost<ParticleSimulation<B, S>>,
    parent: usize,
    bend: i32,
    level: usize,
    segment: u64,
) -> (k: usize)
    requires
        grown(*world, old(nodes)@, *old(sim), before),
        1 <= segment <= STEM_MAX,
        segment == if parent == 0 || level == old(nodes)@[parent as int].level + 1 {
            1
        } else {
            old(nodes)@[parent as int].segment + 1
        },
        level == old(nodes)@[parent as int].level ==> -HEADING_DEVIATION <= bend <= HEADING_DEVIATION,
        level == old(nodes)@[parent as int].level + 1 ==> {
            &&& old(nodes)@[parent as int].segment >= 2
            &&& (BRANCH_ANGLE - HEADING_DEVIATION <= bend <= BRANCH_ANGLE + HEADING_DEVIATION
                || -BRANCH_ANGLE - HEADING_DEVIATION <= bend <= -BRANCH_ANGLE + HEADING_DEVIATION)
        },
        parent < old(nodes)@.len(),
        parent == 0 ==> old(nodes)@.len() == 1,
        old(nodes)@[parent as int].level <= level <= old(nodes)@[parent as int].level + 1,
        level <= MAX_DEPTH,
        -MAX_TURN <= bend <= MAX_TURN,
    ensures
        grown(*world, final(nodes)@, *final(sim), before),
        final(sim).bodies().len() == old(sim).bodies().len() + 1,
        k == old(nodes)@.len(),
        forall|i: int| 0 <= i < old(sim).bodies().len() ==> #[trigger] final(sim).bodies()[i]
            == old(sim).bodies()[i],
        final(nodes)@.drop_last() == old(nodes)@,
        final(nodes)@.len() == old(nodes)@.len() + 1,
        forall|j: int| 0 <= j < old(nodes)@.len() ==> #[trigger] final(nodes)@[j] == old(nodes)@[j],
        final(nodes)@.last().parent == Some(parent),
        final(nodes)@.last().level == level,
        final(nodes)@.last().turn == bend,
        final(nodes)@.last().segment == segment,
{
    let ghost n0 = nodes@;
    let ghost s0 = *sim;
    proof {
        reveal(grown);
    }
    let first = sim.num_particles() - nodes.len();
    let heading = turn(nodes[parent].heading, bend);
    let from = sim.particle(first + parent);
    let body = world.sprout(from, heading, level);
    let idx = sim.new_particle(body, false);
    sim.new_distance_constrain_in_place(world, first + parent, idx);
    if parent > 0 {
        let grand = nodes[parent].parent.unwrap();
        sim.new_angle_constrain_in_place(world, first + grand, first + parent, idx);
    }
    nodes.push(Node { parent: Some(parent), level, heading, turn: bend, segment });
    proof {
        reveal(grown);
        let first = before.bodies().len() as int;
        let d0 = before.distance_constraints().len() as int;
        let a0 = before.angle_constraints().len() as int;
        let nn = nodes@;
        assert(forall|k: int| 0 <= k < n0.len() ==> nn[k] == n0[k]);
        assert(nn.drop_last() =~= n0);
        assert(sim.bodies().subrange(0, first) =~= s0.bodies().subrange(0, first));
        assert(sim.fixed().subrange(0, first) =~= s0.fixed().subrange(0, first));
        assert(sim.distance_constraints().subrange(0, d0)
            =~= s0.distance_constraints().subrange(0, d0));
        assert(sim.angle_constraints().subrange(0, a0)
            =~= s0.angle_constraints().subrange(0, a0));
        assert forall|j: int| d0 <= j < sim.distance_constraints().len() implies {
            let k = j - d0 + 1;
            &&& (#[trigger] sim.distance_constraints()[j]).particle_a == first + parent_index(nn[k])
            &&& sim.distance_constraints()[j].particle_b == first + k
        } by {
            if j < s0.distance_constraints().len() {
                assert(sim.distance_constraints()[j] == s0.distance_constraints()[j]);
            }
        }
        assert forall|j: int| a0 <= j < sim.angle_constraints().len() implies {
            let k = j - a0 + 2;
            let p = parent_index(nn[k]);
            &&& (#[trigger] sim.angle_constraints()[j]).particle_a == first + parent_index(nn[p])
            &&& sim.angle_constraints()[j].particle_b == first + p
            &&& sim.angle_constraints()[j].particle_c == first + k
        } by {
            if j < s0.angle_constraints().len() {
                assert(sim.angle_constraints()[j] == s0.angle_constraints()[j]);
            }
        }
    }
    nodes.len() - 1
}

/// Most nodes that a stem at `level` adds, its branches included.
pub open spec fn stem_capacity(level: nat) -> nat
    decreases MAX_DEPTH - level,
{
    if level >= MAX_DEPTH {
        STEM_MAX as nat
    } else {
        STEM_MAX as nat + 2 * stem_capacity(level + 1)
    }
}

/// Grows one stem at `level` from node `from`, turned by `offset` from its
/// heading: a random number of segments in `STEM_MIN..=STEM_MAX`, each
/// turned by a random deviation of at most `HEADING_DEVIATION`. Below `MAX_DEPTH`, after segment `i` of `len` the stem
/// ends in two branches with chance `i / len`.
#[verifier::rlimit(100)]
fn grow_stem<B: Copy, S: Copy, D: Dynamics<B, S> + Growth<B>>(
    sim: &mut ParticleSimulation<B, S>,
    world: &D,
    rng: &mut StdRng,
    nodes: &mut Vec<Node>,
    Ghost(before): Ghost<ParticleSimulation<B, S>>,
    from: usize,
    offset: i32,
    level: usize,
)
    requires
        grown(*world, old(nodes)@, *old(sim), before),
        from < old(nodes)@.len(),
        from == 0 ==> old(nodes)@.len() == 1 && level == 0 && offset == 0,
        from != 0 ==> {
            &&& level == old(nodes)@[from as int].level + 1
            &&& old(nodes)@[from as int].segment >= 2
            &&& (offset == BRANCH_ANGLE || offset == -BRANCH_ANGLE)
        },
        level <= MAX_DEPTH,
    ensures
        grown(*world, final(nodes)@, *final(sim), before),
        final(sim).bodies().len() >= old(sim).bodies().len(),
        final(nodes)@.subrange(0, old(nodes)@.len() as int) == old(nodes)@,
        forall|i: int| 0 <= i < old(sim).bodies().len() ==> #[trigger] final(sim).bodies()[i]
            == old(sim).bodies()[i],
        old(nodes)@.len() + STEM_MIN <= final(nodes)@.len() <= old(nodes)@.len() + stem_capacity(
            level as nat,
        ),
    decreases MAX_DEPTH - level,
{
    let ghost n0 = nodes@;
    let ghost s0 = *sim;
    proof {
        reveal(grown);
    }
    let len = STEM_MIN + draw_below(rng, STEM_MAX - STEM_MIN + 1);
    let mut prev = from;
    let mut pending = offset;
    let mut i: u64 = 0;
    while i < len
        invariant_except_break
            nodes@.len() == n0.len() + i,
            i > 0 ==> nodes@[prev as int].level == level && nodes@[prev as int].segment == i
                && pending == 0,
        invariant
            grown(*world, nodes@, *sim, before),
            STEM_MIN <= len <= STEM_MAX,
            i <= len,
            nodes@.subrange(0, n0.len() as int) == n0,
            sim.bodies().len() >= s0.bodies().len(),
            forall|i: int| 0 <= i < s0.bodies().len() ==> #[trigger] sim.bodies()[i]
                == s0.bodies()[i],
            prev < nodes@.len(),
            prev == 0 ==> nodes@.len() == 1 && level == 0,
            i == 0 ==> prev == from && pending == offset,
            from == 0 ==> level == 0 && offset == 0,
            from != 0 ==> {
                &&& level == n0[from as int].level + 1
                &&& n0[from as int].segment >= 2
                &&& (offset == BRANCH_ANGLE || offset == -BRANCH_ANGLE)
            },
            n0.len() >= 1 && n0[0].level == 0,
            from < n0.len(),
            level <= MAX_DEPTH,
        ensures
            n0.len() + STEM_MIN <= nodes@.len() <= n0.len() + stem_capacity(level as nat),
        decreases len - i,
    {
        let deviation = draw_below(rng, 2 * HEADING_DEVIATION as u64 + 1) as i32 - HEADING_DEVIATION;
        let ghost before_seg = nodes@;
        assert(nodes@[from as int] == n0[from as int]) by {
            assert(nodes@.subrange(0, n0.len() as int)[from as int] == nodes@[from as int]);
        }
        assert(nodes@[0] == n0[0]) by {
            assert(nodes@.subrange(0, n0.len() as int)[0] == nodes@[0]);
        }
        prev = add_segment(
            sim,
            world,
            nodes,
            Ghost(before),
            prev,
            pending + deviation,
            level,
            i + 1,
        );
        pending = 0;
        assert(nodes@.subrange(0, n0.len() as int) =~= before_seg.subrange(0, n0.len() as int));
        if level < MAX_DEPTH && draw_below(rng, len) < i {
            let ghost at_split = nodes@;
            grow_stem(sim, world, rng, nodes, Ghost(before), prev, BRANCH_ANGLE, level + 1);
            assert(nodes@.subrange(0, n0.len() as int) =~= at_split.subrange(0, n0.len() as int));
            let ghost mid = nodes@;
            grow_stem(sim, world, rng, nodes, Ghost(before), prev, -BRANCH_ANGLE, level + 1);
            assert(nodes@.subrange(0, n0.len() as int) =~= mid.subrange(0, n0.len() as int));
            break;
        }
        i += 1;
    }
}

/// Most nodes in a generated structure: the root and a full trunk whose
/// stems all branch down to `MAX_DEPTH`.
pub const MAX_STRUCTURE_NODES: usize = 2551;

/// Grows a branching structure into `sim`: a fixed root particle with state
/// `root`, then a trunk from it heading `ROOT_HEADING`, with its branches.
/// Each new particle's state comes from `world.sprout` on its parent's;
/// distance and angle constraints are created in place, so the structure
/// starts at rest in the shape it was grown in. `rng` decides stem lengths,
/// deviations and branching.
pub fn generate_tree<B: Copy, S: Copy, D: Dynamics<B, S> + Growth<B>>(
    sim: &mut ParticleSimulation<B, S>,
    world: &D,
    rng: &mut StdRng,
    root: B,
) -> (t: Tree)
    requires
        old(sim).wf(),
    ensures
        t.first == old(sim).bodies().len(),
        is_tree(t.nodes@),
        single_trunk(t.nodes@),
        smooth_headings(t.nodes@),
        stem_shape(t.nodes@),
        sprouted_from(*world, t.nodes@, *final(sim), t.first as int),
        embeds(t.nodes@, *final(sim), *old(sim)),
        final(sim).bodies()[t.first as int] == root,
        t.nodes@[0].heading == ROOT_HEADING,
        1 + STEM_MIN <= t.nodes@.len() <= MAX_STRUCTURE_NODES,
{
    let ghost before = *sim;
    let first = sim.new_particle(root, true);
    let ghost rooted = *sim;
    let mut nodes: Vec<Node> = Vec::new();
    nodes.push(Node { parent: None, level: 0, heading: ROOT_HEADING, turn: 0, segment: 0 });
    proof {
        reveal(grown);
        assert(sim.bodies().subrange(0, first as int) =~= before.bodies());
        assert(sim.fixed().subrange(0, first as int) =~= before.fixed());
        assert(sim.distance_constraints().subrange(0, before.distance_constraints().len() as int)
            =~= before.distance_constraints());
        assert(sim.angle_constraints().subrange(0, before.angle_constraints().len() as int)
            =~= before.angle_constraints());
    }
    grow_stem(sim, world, rng, &mut nodes, Ghost(before), 0, 0, 0);
    proof {
        reveal(grown);
        assert(stem_capacity(7) == 10);
        assert(stem_capacity(6) == 30);
        assert(stem_capacity(5) == 70);
        assert(stem_capacity(4) == 150);
        assert(stem_capacity(3) == 310);
        assert(stem_capacity(2) == 630);
        assert(stem_capacity(1) == 1270);
        assert(stem_capacity(0) == 2550);
        assert(nodes@[0] == nodes@.subrange(0, 1)[0]);
        assert(rooted.bodies()[first as int] == root);
    }
    Tree { first, nodes }
}

/// Following parents from node `k` ends at node 0.
pub open spec fn reaches_root(nodes: Seq<Node>, k: int) -> bool
    decreases k,
{
    if k <= 0 {
        k == 0
    } else {
        let p = parent_index(nodes[k]);
        0 <= p < k && reaches_root(nodes, p)
    }
}

/// Node `a` is met when following parents from node `k`.
pub open spec fn is_ancestor(nodes: Seq<Node>, a: int, k: int) -> bool
    decreases k,
{
    if k <= 0 {
        false
    } else {
        let p = parent_index(nodes[k]);
        0 <= p < k && (p == a || is_ancestor(nodes, a, p))
    }
}

proof fn lemma_reaches_root(nodes: Seq<Node>, k: int)
    requires
        is_tree(nodes),
        0 <= k < nodes.len(),
    ensures
        reaches_root(nodes, k),
    decreases k,
{
    if k > 0 {
        let p = parent_index(nodes[k]);
        lemma_reaches_root(nodes, p);
    }
}

proof fn lemma_ancestor_precedes(nodes: Seq<Node>, a: int, k: int)
    requires
        is_tree(nodes),
        0 <= k < nodes.len(),
    ensures
        is_ancestor(nodes, a, k) ==> a < k,
    decreases k,
{
    if k > 0 {
        let p = parent_index(nodes[k]);
        lemma_ancestor_precedes(nodes, a, p);
    }
}

/// A generated structure is a tree: node 0 is the only node without a
/// parent, every node leads back to it through its parents, no node is its
/// own ancestor, and no branching level exceeds `MAX_DEPTH`.
pub proof fn lemma_structure_is_tree(nodes: Seq<Node>)
    requires
        is_tree(nodes),
    ensures
        forall|k: int| 0 <= k < nodes.len() ==> ((#[trigger] nodes[k]).parent is None <==> k == 0),
        forall|k: int| 0 <= k < nodes.len() ==> #[trigger] reaches_root(nodes, k),
        forall|k: int| 0 <= k < nodes.len() ==> !#[trigger] is_ancestor(nodes, k, k),
        forall|k: int| 0 <= k < nodes.len() ==> (#[trigger] nodes[k]).level <= MAX_DEPTH,
{
    assert forall|k: int| 0 <= k < nodes.len() implies #[trigger] reaches_root(nodes, k) by {
        lemma_reaches_root(nodes, k);
    }
    assert forall|k: int| 0 <= k < nodes.len() implies !#[trigger] is_ancestor(nodes, k, k) by {
        lemma_ancestor_precedes(nodes, k, k);
    }
    assert forall|k: int| 0 <= k < nodes.len() implies ((#[trigger] nodes[k]).parent is None
        <==> k == 0) by {
        if k > 0 {
            assert(0 <= parent_index(nodes[k]));
        }
    }
}

/// Particles `i` and `j` are the two ends of some distance constraint of `sim`.
pub open spec fn joined<B: Copy, S: Copy>(sim: ParticleSimulation<B, S>, i: int, j: int) -> bool {
    exists|c: int|
        0 <= c < sim.distance_constraints().len() && {
            let dc = #[trigger] sim.distance_constraints()[c];
            ||| (dc.particle_a == i && dc.particle_b == j)
            ||| (dc.particle_a == j && dc.particle_b == i)
        }
}

/// Each two consecutive particles of `path` are joined by a distance
/// constraint of `sim`.
pub open spec fn constraint_path<B: Copy, S: Copy>(
    sim: ParticleSimulation<B, S>,
    path: Seq<int>,
) -> bool {
    forall|m: int| 0 <= m < path.len() - 1 ==> joined(sim, #[trigger] path[m], path[m + 1])
}

/// The particles met from the root of a structure placed at `first` down to
/// its node `k`.
pub open spec fn root_path(nodes: Seq<Node>, first: int, k: int) -> Seq<int>
    decreases k,
{
    if k <= 0 {
        seq![first]
    } else {
        let p = parent_index(nodes[k]);
        if 0 <= p < k {
            root_path(nodes, first, p).push(first + k)
        } else {
            seq![first + k]
        }
    }
}

proof fn lemma_root_path<B: Copy, S: Copy>(
    nodes: Seq<Node>,
    sim: ParticleSimulation<B, S>,
    before: ParticleSimulation<B, S>,
    k: int,
)
    requires
        is_tree(nodes),
        embeds(nodes, sim, before),
        0 <= k < nodes.len(),
    ensures
        ({
            let path = root_path(nodes, before.bodies().len() as int, k);
            &&& path.len() >= 1
            &&& path[0] == before.bodies().len()
            &&& path.last() == before.bodies().len() + k
            &&& constraint_path(sim, path)
        }),
    decreases k,
{
    let first = before.bodies().len() as int;
    if k > 0 {
        let p = parent_index(nodes[k]);
        lemma_root_path(nodes, sim, before, p);
        let prefix = root_path(nodes, first, p);
        let path = root_path(nodes, first, k);
        assert(path == prefix.push(first + k));
        let c = before.distance_constraints().len() + k - 1;
        assert(sim.distance_constraints()[c].particle_a == first + p);
        assert(joined(sim, prefix.last(), first + k));
        assert forall|m: int| 0 <= m < path.len() - 1 implies joined(
            sim,
            #[trigger] path[m],
            path[m + 1],
        ) by {
            if m < prefix.len() - 1 {
                assert(path[m] == prefix[m] && path[m + 1] == prefix[m + 1]);
            } else {
                assert(path[m] == prefix.last());
            }
        }
    }
}

/// In a simulation that a structure was grown into, every particle of the
/// structure is reached from its root particle by a path of distance
/// constraints: the path that follows parents from the node up to the root.
pub proof fn lemma_structure_connected<B: Copy, S: Copy>(
    nodes: Seq<Node>,
    sim: ParticleSimulation<B, S>,
    before: ParticleSimulation<B, S>,
)
    requires
        is_tree(nodes),
        embeds(nodes, sim, before),
    ensures
        forall|k: int|
            0 <= k < nodes.len() ==> {
                let path = #[trigger] root_path(nodes, before.bodies().len() as int, k);
                &&& path.len() >= 1
                &&& path[0] == before.bodies().len()
                &&& path.last() == before.bodies().len() + k
                &&& constraint_path(sim, path)
            },
{
    assert forall|k: int| 0 <= k < nodes.len() implies {
        let path = #[trigger] root_path(nodes, before.bodies().len() as int, k);
        &&& path.len() >= 1
        &&& path[0] == before.bodies().len()
        &&& path.last() == before.bodies().len() + k
        &&& constraint_path(sim, path)
    } by {
        lemma_root_path(nodes, sim, before, k);
    }
}

} // verus!
