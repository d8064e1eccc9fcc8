//! What holds of every node, link and simulation, whatever the numbers.

use vstd::prelude::*;
use crate::config::Input;
use crate::constraint::{lemma_link_at_rest_is_still, links_fit, Constraint};
use crate::model::{
    all_in_range, all_with_gravity, forced, holds, launched, lemma_filter_fits,
    lemma_filtered_were_there, moved, none_self,
    relax, relax_pass, run, settled, spared, step, topology_fault, unbroken, StateView,
};
use crate::node::{lemma_zero_gravity, IntegrationRule, NodeView};
use crate::vec2::Vec2;

verus! {

/// One of the operations that force, move or correct a node.
pub enum NodeOp {
    Gravity(i64),
    Drag(i64),
    Impulse(Vec2),
    Integrate(IntegrationRule, i64),
    Differentiate(i64),
    Offset(Vec2),
}

/// The node after `op`.
pub open spec fn applied(n: NodeView, op: NodeOp) -> NodeView {
    match op {
        NodeOp::Gravity(g) => n.with_gravity(g),
        NodeOp::Drag(k) => n.with_drag(k),
        NodeOp::Impulse(f) => n.with_impulse(f),
        NodeOp::Integrate(rule, dt) => n.integrated(rule, dt),
        NodeOp::Differentiate(dt) => n.differentiated(dt),
        NodeOp::Offset(offs) => n.with_offset(offs),
    }
}

/// The node after each of `ops`, in their order.
pub open spec fn applied_all(n: NodeView, ops: Seq<NodeOp>) -> NodeView
    decreases ops.len(),
{
    if ops.len() == 0 {
        n
    } else {
        applied(applied_all(n, ops.drop_last()), ops.last())
    }
}

/// Gravity of strength zero leaves every node's force, and all else of it,
/// as it was.
pub proof fn lemma_zero_gravity_adds_nothing(nodes: Seq<NodeView>)
    ensures
        all_with_gravity(nodes, 0) == nodes,
{
    assert forall|k: int| 0 <= k < nodes.len() implies nodes[k].with_gravity(0) == nodes[k] by {
        lemma_zero_gravity(nodes[k]);
    }
    assert(all_with_gravity(nodes, 0) =~= nodes);
}

/// No run of operations moves a fixed node: its position, its previous
/// position, its velocity and its mass stay, and it stays fixed. Only an
/// impulse can change it at all, and only its force.
pub proof fn lemma_fixed_node_stays(n: NodeView, ops: Seq<NodeOp>)
    requires
        n.fixed,
    ensures
        applied_all(n, ops) == (NodeView { force: applied_all(n, ops).force, ..n }),
        (forall|i: int| 0 <= i < ops.len() ==> !(#[trigger] ops[i] is Impulse)) ==> applied_all(
            n,
            ops,
        ) == n,
    decreases ops.len(),
{
    if ops.len() > 0 {
        let front = ops.drop_last();
        lemma_fixed_node_stays(n, front);
        if forall|i: int| 0 <= i < ops.len() ==> !(#[trigger] ops[i] is Impulse) {
            assert forall|i: int| 0 <= i < front.len() implies !(#[trigger] front[i]
                is Impulse) by {
                assert(front[i] == ops[i]);
            }
        }
    }
}

/// No run of operations changes a node's mass, pins it or releases it.
pub proof fn lemma_mass_and_pin_are_kept(n: NodeView, ops: Seq<NodeOp>)
    ensures
        applied_all(n, ops).mass == n.mass,
        applied_all(n, ops).fixed == n.fixed,
    decreases ops.len(),
{
    if ops.len() > 0 {
        lemma_mass_and_pin_are_kept(n, ops.drop_last());
    }
}

/// `after` holds the nodes of `before` with nothing changed but the
/// positions of free nodes.
pub open spec fn only_free_moved(before: Seq<NodeView>, after: Seq<NodeView>) -> bool {
    &&& after.len() == before.len()
    &&& forall|k: int|
        0 <= k < before.len() ==> #[trigger] after[k] == (NodeView {
            pos: after[k].pos,
            ..before[k]
        })
    &&& forall|k: int|
        0 <= k < before.len() && before[k].fixed ==> #[trigger] after[k] == before[k]
}

/// Relaxing a link changes nothing but the positions of free nodes.
pub proof fn lemma_relaxed_moves_only_free(
    link: Constraint,
    nodes: Seq<NodeView>,
    rigidity: i64,
    compressed_gain: i64,
)
    requires
        link.in_range(nodes.len()),
    ensures
        only_free_moved(nodes, link.relaxed(nodes, rigidity, compressed_gain)),
{
}

/// A relaxation pass changes nothing but the positions of free nodes.
pub proof fn lemma_relax_pass_moves_only_free(
    nodes: Seq<NodeView>,
    links: Seq<Constraint>,
    rigidity: i64,
    compressed_gain: i64,
)
    requires
        links_fit(links, nodes.len()),
    ensures
        only_free_moved(nodes, relax_pass(nodes, links, rigidity, compressed_gain)),
    decreases links.len(),
{
    if links.len() > 0 {
        let front = links.drop_last();
        assert forall|m: int| 0 <= m < front.len() implies (#[trigger] front[m]).in_range(
            nodes.len(),
        ) && front[m].a != front[m].b by {
            assert(front[m] == links[m]);
        }
        lemma_relax_pass_moves_only_free(nodes, front, rigidity, compressed_gain);
        let mid = relax_pass(nodes, front, rigidity, compressed_gain);
        lemma_relaxed_moves_only_free(links.last(), mid, rigidity, compressed_gain);
    }
}

/// Any number of relaxation passes changes nothing but the positions of free
/// nodes.
pub proof fn lemma_relax_moves_only_free(
    nodes: Seq<NodeView>,
    links: Seq<Constraint>,
    rigidity: i64,
    compressed_gain: i64,
    passes: nat,
)
    requires
        links_fit(links, nodes.len()),
    ensures
        only_free_moved(nodes, relax(nodes, links, rigidity, compressed_gain, passes)),
    decreases passes,
{
    if passes > 0 {
        lemma_relax_moves_only_free(nodes, links, rigidity, compressed_gain, (passes - 1) as nat);
        let mid = relax(nodes, links, rigidity, compressed_gain, (passes - 1) as nat);
        lemma_relax_pass_moves_only_free(mid, links, rigidity, compressed_gain);
    }
}

/// Every link of `links` is exactly its rest length long.
pub open spec fn all_at_rest(nodes: Seq<NodeView>, links: Seq<Constraint>) -> bool {
    forall|m: int|
        0 <= m < links.len() ==> (#[trigger] links[m]).spec_stretch(nodes) == links[m].rest_length
}

/// Where every link is exactly its rest length long, a relaxation pass moves
/// no node.
pub proof fn lemma_rested_pass_is_still(
    nodes: Seq<NodeView>,
    links: Seq<Constraint>,
    rigidity: i64,
    compressed_gain: i64,
)
    requires
        links_fit(links, nodes.len()),
        all_at_rest(nodes, links),
    ensures
        relax_pass(nodes, links, rigidity, compressed_gain) == nodes,
    decreases links.len(),
{
    if links.len() > 0 {
        let front = links.drop_last();
        assert forall|m: int| 0 <= m < front.len() implies (#[trigger] front[m]).in_range(
            nodes.len(),
        ) && front[m].a != front[m].b && front[m].spec_stretch(nodes) == front[m].rest_length by {
            assert(front[m] == links[m]);
        }
        lemma_rested_pass_is_still(nodes, front, rigidity, compressed_gain);
        let last = links[links.len() - 1];
        lemma_link_at_rest_is_still(last, nodes, rigidity, compressed_gain);
    }
}

/// Where every link is exactly its rest length long, no number of
/// relaxation passes moves a node.
pub proof fn lemma_rested_links_are_still(
    nodes: Seq<NodeView>,
    links: Seq<Constraint>,
    rigidity: i64,
    compressed_gain: i64,
    passes: nat,
)
    requires
        links_fit(links, nodes.len()),
        all_at_rest(nodes, links),
    ensures
        relax(nodes, links, rigidity, compressed_gain, passes) == nodes,
    decreases passes,
{
    if passes > 0 {
        lemma_rested_links_are_still(nodes, links, rigidity, compressed_gain, (passes - 1) as nat);
        lemma_rested_pass_is_still(nodes, links, rigidity, compressed_gain);
    }
}

/// With no relaxation pass the nodes stay exactly where integration put
/// them.
pub proof fn lemma_no_passes(s: StateView, input: Input)
    requires
        s.config.passes == 0,
    ensures
        settled(s, input) == launched(s, input),
        moved(s, input).len() == launched(s, input).len(),
        forall|k: int|
            0 <= k < launched(s, input).len() ==> (#[trigger] moved(s, input)[k]).pos == launched(
                s,
                input,
            )[k].pos,
{
}

/// A state is well-formed exactly when nothing keeps its nodes and links from
/// forming a simulation.
pub proof fn lemma_wf_is_no_fault(s: StateView)
    ensures
        s.wf() <==> topology_fault(s.nodes, s.links) is None,
{
    if s.wf() {
        assert(all_in_range(s.links, s.nodes.len()));
        assert(none_self(s.links));
    }
    if topology_fault(s.nodes, s.links) is None {
        assert(links_fit(s.links, s.nodes.len())) by {
            assert(all_in_range(s.links, s.nodes.len()));
            assert(none_self(s.links));
        }
    }
}

/// A step leaves a well-formed state well-formed.
pub proof fn lemma_step_keeps_wf(s: StateView, input: Input)
    requires
        s.wf(),
    ensures
        step(s, input).wf(),
{
    let start = launched(s, input);
    lemma_relax_moves_only_free(
        start,
        s.links,
        s.config.rigidity,
        s.config.compressed_gain,
        s.config.passes as nat,
    );
    let after = moved(s, input);
    assert forall|k: int| 0 <= k < after.len() implies (#[trigger] after[k]).mass > 0 by {
        assert(settled(s, input)[k].mass == start[k].mass);
        assert(start[k].mass == forced(s, input)[k].mass);
        assert(forced(s, input)[k].mass == s.nodes[k].mass);
    }
    lemma_filter_fits(s.links, holds(after), after.len());
    lemma_filter_fits(
        unbroken(s.links, after),
        spared(after, s.pointer, input.pointer),
        after.len(),
    );
}

/// A step destroys no node and makes no link: the nodes keep their number,
/// their masses and their pins, and every link that is left was there
/// before.
pub proof fn lemma_step_keeps_topology(s: StateView, input: Input)
    requires
        s.wf(),
    ensures
        step(s, input).nodes.len() == s.nodes.len(),
        forall|k: int|
            0 <= k < s.nodes.len() ==> (#[trigger] step(s, input).nodes[k]).mass == s.nodes[k].mass
                && step(s, input).nodes[k].fixed == s.nodes[k].fixed,
        step(s, input).links.len() <= s.links.len(),
        forall|m: int|
            0 <= m < step(s, input).links.len() ==> s.links.contains(
                #[trigger] step(s, input).links[m],
            ),
{
    let start = launched(s, input);
    lemma_relax_moves_only_free(
        start,
        s.links,
        s.config.rigidity,
        s.config.compressed_gain,
        s.config.passes as nat,
    );
    let after = moved(s, input);
    assert forall|k: int| 0 <= k < s.nodes.len() implies (#[trigger] after[k]).mass
        == s.nodes[k].mass && after[k].fixed == s.nodes[k].fixed by {
        assert(settled(s, input)[k].mass == start[k].mass);
        assert(settled(s, input)[k].fixed == start[k].fixed);
        assert(start[k].mass == forced(s, input)[k].mass);
        assert(forced(s, input)[k].mass == s.nodes[k].mass);
    }
    let whole = unbroken(s.links, after);
    lemma_filtered_were_there(s.links, holds(after));
    lemma_filtered_were_there(whole, spared(after, s.pointer, input.pointer));
    let left = step(s, input).links;
    assert forall|m: int| 0 <= m < left.len() implies s.links.contains(#[trigger] left[m]) by {
        assert(whole.contains(left[m]));
    }
}

/// A run of steps leaves a well-formed state well-formed.
pub proof fn lemma_run_keeps_wf(s: StateView, inputs: Seq<Input>)
    requires
        s.wf(),
    ensures
        run(s, inputs).wf(),
    decreases inputs.len(),
{
    if inputs.len() > 0 {
        lemma_run_keeps_wf(s, inputs.drop_last());
        lemma_step_keeps_wf(run(s, inputs.drop_last()), inputs.last());
    }
}

/// A step moves no fixed node: it stays fixed, where it was, with the
/// velocity and the mass it had.
pub proof fn lemma_step_keeps_fixed_in_place(s: StateView, input: Input, k: int)
    requires
        s.wf(),
        0 <= k < s.nodes.len(),
        s.nodes[k].fixed,
    ensures
        step(s, input).nodes.len() == s.nodes.len(),
        step(s, input).nodes[k] == (NodeView {
            force: step(s, input).nodes[k].force,
            ..s.nodes[k]
        }),
{
    let start = launched(s, input);
    lemma_relax_moves_only_free(
        start,
        s.links,
        s.config.rigidity,
        s.config.compressed_gain,
        s.config.passes as nat,
    );
    assert(forced(s, input)[k].fixed);
    assert(start[k] == forced(s, input)[k]);
    assert(settled(s, input)[k] == start[k]);
}

/// Runs that start from the same state and see the same inputs end in the
/// same state: a run is a function of where it starts and what it is fed.
pub proof fn lemma_runs_agree(a: StateView, b: StateView, fed_a: Seq<Input>, fed_b: Seq<Input>)
    requires
        a == b,
        fed_a == fed_b,
    ensures
        run(a, fed_a) == run(b, fed_b),
        run(a, fed_a).nodes == run(b, fed_b).nodes,
{
}

} // verus!
