//! The mathematical model of a simulation: its state, the passes that make
//! up a step, and the step itself.

use vstd::prelude::*;
use crate::config::{Config, Input};
use crate::constraint::{links_fit, Constraint};
use crate::error::ConfigFault;
use crate::node::{masses_positive, IntegrationRule, NodeView};
use crate::vec2::Vec2;

verus! {

/// The mathematical state of a simulation.
pub struct StateView {
    pub nodes: Seq<NodeView>,
    pub links: Seq<Constraint>,
    /// Where the pointer was when the last step ended.
    pub pointer: Vec2,
    pub config: Config,
}

/// Every link joins nodes of an arena of `len` nodes.
pub open spec fn all_in_range(links: Seq<Constraint>, len: nat) -> bool {
    forall|m: int| 0 <= m < links.len() ==> (#[trigger] links[m]).in_range(len)
}

/// No link joins a node to itself.
pub open spec fn none_self(links: Seq<Constraint>) -> bool {
    forall|m: int| 0 <= m < links.len() ==> (#[trigger] links[m]).a != links[m].b
}

/// What keeps `nodes` and `links` from forming a simulation, if anything:
/// the first of these that applies.
pub open spec fn topology_fault(nodes: Seq<NodeView>, links: Seq<Constraint>) -> Option<
    ConfigFault,
> {
    if nodes.len() == 0 {
        Some(ConfigFault::EmptyTopology)
    } else if !masses_positive(nodes) {
        Some(ConfigFault::NonPositiveMass)
    } else if !all_in_range(links, nodes.len()) {
        Some(ConfigFault::LinkOutOfRange)
    } else if !none_self(links) {
        Some(ConfigFault::SelfLink)
    } else {
        None
    }
}

impl StateView {
    /// There is a node, every mass is positive, and every link joins two
    /// different nodes that are there.
    pub open spec fn wf(self) -> bool {
        &&& self.nodes.len() > 0
        &&& masses_positive(self.nodes)
        &&& links_fit(self.links, self.nodes.len())
    }
}

/// Gravity on every node.
pub open spec fn all_with_gravity(nodes: Seq<NodeView>, g: i64) -> Seq<NodeView> {
    nodes.map_values(|n: NodeView| n.with_gravity(g))
}

/// Drag on every node.
pub open spec fn all_with_drag(nodes: Seq<NodeView>, k: i64) -> Seq<NodeView> {
    nodes.map_values(|n: NodeView| n.with_drag(k))
}

/// The force with which a pointer that moved from `from` to `to` pushes the
/// nodes it has captured.
pub open spec fn push(from: Vec2, to: Vec2, impulse_gain: i64) -> Vec2 {
    to.spec_minus(from).spec_times(impulse_gain)
}

/// Whether a node at `pos` is captured by a pointer at `pointer`.
pub open spec fn captured(pos: Vec2, pointer: Vec2, capture_radius: i64) -> bool {
    pos.spec_minus(pointer).spec_length() < capture_radius
}

/// The pointer's push on every node it has captured, fixed or not. A pointer
/// that is cutting pushes nothing.
pub open spec fn blown(nodes: Seq<NodeView>, from: Vec2, input: Input, config: Config) -> Seq<
    NodeView,
> {
    if input.cutting {
        nodes
    } else {
        nodes.map_values(
            |n: NodeView|
                if captured(n.pos, input.pointer, config.capture_radius) {
                    n.with_impulse(push(from, input.pointer, config.impulse_gain))
                } else {
                    n
                },
        )
    }
}

/// Every node one time step later.
pub open spec fn all_integrated(nodes: Seq<NodeView>, rule: IntegrationRule, dt: i64) -> Seq<
    NodeView,
> {
    nodes.map_values(|n: NodeView| n.integrated(rule, dt))
}

/// Every node with its velocity rederived from its displacement.
pub open spec fn all_differentiated(nodes: Seq<NodeView>, dt: i64) -> Seq<NodeView> {
    nodes.map_values(|n: NodeView| n.differentiated(dt))
}

/// One relaxation pass: every link relaxed once, in the order of `links`,
/// each seeing what the links before it have moved.
pub open spec fn relax_pass(
    nodes: Seq<NodeView>,
    links: Seq<Constraint>,
    rigidity: i64,
    compressed_gain: i64,
) -> Seq<NodeView>
    decreases links.len(),
{
    if links.len() == 0 {
        nodes
    } else {
        links.last().relaxed(
            relax_pass(nodes, links.drop_last(), rigidity, compressed_gain),
            rigidity,
            compressed_gain,
        )
    }
}

/// `passes` relaxation passes, one after the other.
pub open spec fn relax(
    nodes: Seq<NodeView>,
    links: Seq<Constraint>,
    rigidity: i64,
    compressed_gain: i64,
    passes: nat,
) -> Seq<NodeView>
    decreases passes,
{
    if passes == 0 {
        nodes
    } else {
        relax_pass(
            relax(nodes, links, rigidity, compressed_gain, (passes - 1) as nat),
            links,
            rigidity,
            compressed_gain,
        )
    }
}

/// The test that a link passes while it has not snapped.
pub open spec fn holds(nodes: Seq<NodeView>) -> spec_fn(Constraint) -> bool {
    |link: Constraint| !link.spec_snapped(nodes)
}

/// The test that a link passes while the stroke from `from` to `to` misses it.
pub open spec fn spared(nodes: Seq<NodeView>, from: Vec2, to: Vec2) -> spec_fn(Constraint) -> bool {
    |link: Constraint| !link.spec_cut_by(nodes, from, to)
}

/// The links that are left after the snapped ones are removed, in their
/// old order.
pub open spec fn unbroken(links: Seq<Constraint>, nodes: Seq<NodeView>) -> Seq<Constraint> {
    links.filter(holds(nodes))
}

/// The links that are left after a stroke from `from` to `to`, in their old
/// order.
pub open spec fn uncut(links: Seq<Constraint>, nodes: Seq<NodeView>, from: Vec2, to: Vec2) -> Seq<
    Constraint,
> {
    links.filter(spared(nodes, from, to))
}

/// The nodes with the forces of one step on them: gravity, then drag, then
/// the pointer's push.
pub open spec fn forced(s: StateView, input: Input) -> Seq<NodeView> {
    blown(
        all_with_drag(all_with_gravity(s.nodes, s.config.gravity), s.config.drag),
        s.pointer,
        input,
        s.config,
    )
}

/// The nodes after the forces and the integration of one step.
pub open spec fn launched(s: StateView, input: Input) -> Seq<NodeView> {
    all_integrated(forced(s, input), s.config.rule, s.config.dt)
}

/// The nodes after the forces, the integration and the relaxation of one
/// step.
pub open spec fn settled(s: StateView, input: Input) -> Seq<NodeView> {
    relax(
        launched(s, input),
        s.links,
        s.config.rigidity,
        s.config.compressed_gain,
        s.config.passes as nat,
    )
}

/// The nodes at the end of one step: settled, with the velocities rederived
/// where the rule asks for it.
pub open spec fn moved(s: StateView, input: Input) -> Seq<NodeView> {
    match s.config.rule {
        IntegrationRule::SemiImplicitEuler => all_differentiated(settled(s, input), s.config.dt),
        IntegrationRule::VelocityVerlet => settled(s, input),
    }
}

/// The links that survive one step: those that have not snapped and, while
/// the pointer cuts, those that its stroke misses.
pub open spec fn surviving(s: StateView, input: Input) -> Seq<Constraint> {
    let nodes = moved(s, input);
    let whole = unbroken(s.links, nodes);
    if input.cutting {
        uncut(whole, nodes, s.pointer, input.pointer)
    } else {
        whole
    }
}

/// The state one step later.
pub open spec fn step(s: StateView, input: Input) -> StateView {
    StateView {
        nodes: moved(s, input),
        links: surviving(s, input),
        pointer: input.pointer,
        config: s.config,
    }
}

/// The state after one step for each of `inputs`, in their order.
pub open spec fn run(s: StateView, inputs: Seq<Input>) -> StateView
    decreases inputs.len(),
{
    if inputs.len() == 0 {
        s
    } else {
        step(run(s, inputs.drop_last()), inputs.last())
    }
}

/// Filtering a run of links that fit leaves a run of links that fit.
pub proof fn lemma_filter_fits(links: Seq<Constraint>, test: spec_fn(Constraint) -> bool, len: nat)
    requires
        links_fit(links, len),
    ensures
        links_fit(links.filter(test), len),
    decreases links.len(),
{
    reveal(Seq::filter);
    if links.len() > 0 {
        let front = links.drop_last();
        assert forall|m: int| 0 <= m < front.len() implies (#[trigger] front[m]).in_range(len)
            && front[m].a != front[m].b by {
            assert(front[m] == links[m]);
        }
        lemma_filter_fits(front, test, len);
    }
}

/// Filtering invents no link: what is left is no longer
/// than what was there, and each of its links was there.
pub proof fn lemma_filtered_were_there(links: Seq<Constraint>, test: spec_fn(Constraint) -> bool)
    ensures
        links.filter(test).len() <= links.len(),
        forall|m: int|
            0 <= m < links.filter(test).len() ==> links.contains(#[trigger] links.filter(test)[m]),
    decreases links.len(),
{
    reveal(Seq::filter);
    if links.len() > 0 {
        let front = links.drop_last();
        lemma_filtered_were_there(front, test);
        let kept = links.filter(test);
        assert forall|m: int| 0 <= m < kept.len() implies links.contains(#[trigger] kept[m]) by {
            if m < front.filter(test).len() {
                let was = choose|j: int| 0 <= j < front.len() && front[j] == front.filter(test)[m];
                assert(links[was] == kept[m]);
            } else {
                assert(links[links.len() - 1] == kept[m]);
            }
        }
    }
}

/// Something for the host to paint.
#[derive(Clone, Copy, PartialEq, Eq, Structural, Debug)]
pub enum Shape {
    /// A link, as the segment between its two ends.
    Segment { from: Vec2, to: Vec2 },
    /// A node, and whether it is fixed.
    Dot { at: Vec2, pinned: bool },
}

/// The segment that shows `link`.
pub open spec fn segment_of(link: Constraint, nodes: Seq<NodeView>) -> Shape {
    Shape::Segment { from: nodes[link.a as int].pos, to: nodes[link.b as int].pos }
}

/// The dot that shows `node`.
pub open spec fn dot_of(node: NodeView) -> Shape {
    Shape::Dot { at: node.pos, pinned: node.fixed }
}

/// The picture of a state: first a segment for each link, in link order,
/// then a dot for each node, in node order.
pub open spec fn picture(s: StateView) -> Seq<Shape> {
    Seq::new(s.links.len(), |m: int| segment_of(s.links[m], s.nodes)) + Seq::new(
        s.nodes.len(),
        |k: int| dot_of(s.nodes[k]),
    )
}

} // verus!
