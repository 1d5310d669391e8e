//! The lanes a `scatter` opens: what lies between it and the `gather` that
//! collects them.
use vstd::prelude::*;

use crate::error::{ErrorView, ValidationError};
use crate::model::graph::{GraphView, Node, NodeKind, NodeView, WorkflowGraph};
use crate::text::{debug_text, lemma_views_push, quoted, same, views};
use crate::validate::{reason_if, report_if};
use crate::walk::{has_kind, is_kind, is_reached, live_edges, reachable, reached};

verus! {

broadcast use lemma_views_push;

/// Some `gather` collects what leaves the node of this id.
pub open spec fn is_collected(g: GraphView, id: Seq<char>) -> bool {
    exists|k: int|
        0 <= k < g.nodes.len() && (#[trigger] g.nodes[k]).kind == NodeKind::Gather && reachable(
            g,
            Some(NodeKind::Gather),
            id,
            g.nodes[k].id,
        )
}

/// The id stands in a lane of the scatter: edges lead there from it, past no
/// `gather`, and it is none itself.
pub open spec fn in_lane(g: GraphView, scatter: Seq<char>, id: Seq<char>) -> bool {
    &&& !is_kind(g, NodeKind::Gather, id)
    &&& exists|j: int|
        0 <= j < g.edges.len() && (#[trigger] g.edges[j]).to_node == id && !is_kind(
            g,
            NodeKind::Gather,
            g.edges[j].from_node,
        ) && reachable(g, Some(NodeKind::Gather), scatter, g.edges[j].from_node)
}

/// The node waits for an approval before it runs.
pub open spec fn needs_approval(node: NodeView) -> bool {
    node.config.at("requires_approval"@).as_bool() == Some(true)
}

pub open spec fn uncollected_reason() -> Seq<char> {
    "`scatter` must reach a `gather`, which collects its lanes"@
}

pub open spec fn lane_reason(what: Seq<char>, scatter: Seq<char>) -> Seq<char> {
    what + " inside a lane of scatter "@ + debug_text(scatter)
}

pub open spec fn dead_end_reason(scatter: Seq<char>) -> Seq<char> {
    "no path leads from here to the `gather` that collects the lanes of scatter "@ + debug_text(
        scatter,
    )
}

/// What is wrong with a node for standing in a lane of the scatter.
pub open spec fn member_errors(g: GraphView, scatter: NodeView, node: NodeView) -> Seq<ErrorView> {
    if !in_lane(g, scatter.id, node.id) {
        Seq::empty()
    } else {
        reason_if(
            node.kind == NodeKind::Scatter,
            node,
            lane_reason("a nested `scatter` is not supported"@, scatter.id),
        ) + reason_if(
            node.kind == NodeKind::Loop,
            node,
            lane_reason("a `loop` head is not supported"@, scatter.id),
        ) + reason_if(
            needs_approval(node),
            node,
            lane_reason("`requires_approval` is not supported"@, scatter.id),
        ) + reason_if(
            is_collected(g, scatter.id) && !is_collected(g, node.id),
            node,
            dead_end_reason(scatter.id),
        )
    }
}

/// What is wrong with the first `n` nodes for standing in a lane, in node order.
pub open spec fn members_errors(g: GraphView, scatter: NodeView, n: nat) -> Seq<ErrorView>
    decreases n,
{
    if n == 0 {
        Seq::empty()
    } else {
        members_errors(g, scatter, (n - 1) as nat) + member_errors(g, scatter, g.nodes[n - 1])
    }
}

/// What is wrong with the lanes a node opens.
pub open spec fn lane_errors(g: GraphView, node: NodeView) -> Seq<ErrorView> {
    if node.kind != NodeKind::Scatter {
        Seq::empty()
    } else {
        reason_if(!is_collected(g, node.id), node, uncollected_reason()) + members_errors(
            g,
            node,
            g.nodes.len(),
        )
    }
}

fn collected(graph: &WorkflowGraph, id: &str) -> (r: bool)
    ensures
        r == is_collected(graph@, id@),
{
    let live = live_edges(graph, Some(NodeKind::Gather), id);
    let mut k: usize = 0;
    while k < graph.nodes.len()
        invariant
            k <= graph.nodes@.len(),
            live@.len() == graph.edges@.len(),
            forall|to: Seq<char>| #[trigger]
                reached(graph@, live@, id@, to) <==> reachable(
                    graph@,
                    Some(NodeKind::Gather),
                    id@,
                    to,
                ),
            forall|j: int|
                0 <= j < k ==> !((#[trigger] graph@.nodes[j]).kind == NodeKind::Gather && reachable(
                    graph@,
                    Some(NodeKind::Gather),
                    id@,
                    graph@.nodes[j].id,
                )),
        decreases graph.nodes@.len() - k,
    {
        assert(graph@.nodes[k as int] == graph.nodes@[k as int]@);
        if graph.nodes[k].kind == NodeKind::Gather && is_reached(
            graph,
            &live,
            id,
            graph.nodes[k].id.as_str(),
        ) {
            return true;
        }
        k = k + 1;
    }
    false
}

/// Whether a live edge leads to the id, which is no `gather`.
fn stands_in_lane(graph: &WorkflowGraph, live: &Vec<bool>, id: &str) -> (r: bool)
    requires
        live@.len() == graph.edges@.len(),
    ensures
        r == (!is_kind(graph@, NodeKind::Gather, id@) && exists|j: int|
            0 <= j < live@.len() && (#[trigger] graph@.edges[j]).to_node == id@ && live@[j]),
{
    if has_kind(graph, NodeKind::Gather, id) {
        return false;
    }
    let mut j: usize = 0;
    while j < live.len()
        invariant
            j <= live@.len(),
            live@.len() == graph.edges@.len(),
            !is_kind(graph@, NodeKind::Gather, id@),
            forall|k: int|
                0 <= k < j ==> !((#[trigger] graph@.edges[k]).to_node == id@ && live@[k]),
        decreases live@.len() - j,
    {
        assert(graph@.edges[j as int] == graph.edges@[j as int]@);
        if live[j] && same(graph.edges[j].to_node.as_str(), id) {
            return true;
        }
        j = j + 1;
    }
    false
}

fn about_lane(what: &str, scatter: &str) -> (r: String)
    ensures
        r@ == lane_reason(what@, scatter@),
{
    let mut reason = what.to_owned();
    reason.append(" inside a lane of scatter ");
    reason.append(quoted(scatter).as_str());
    reason
}

fn check_member(
    graph: &WorkflowGraph,
    scatter: &Node,
    gathered: bool,
    node: &Node,
    errors: &mut Vec<ValidationError>,
)
    requires
        in_lane(graph@, scatter@.id, node@.id),
        gathered == is_collected(graph@, scatter@.id),
    ensures
        views(final(errors)@) == views(old(errors)@) + member_errors(graph@, scatter@, node@),
{
    let id = scatter.id.as_str();
    report_if(
        node.kind == NodeKind::Scatter,
        node,
        about_lane("a nested `scatter` is not supported", id),
        errors,
    );
    report_if(
        node.kind == NodeKind::Loop,
        node,
        about_lane("a `loop` head is not supported", id),
        errors,
    );
    let waits = match node.config.at("requires_approval").as_bool() {
        Some(flag) => flag,
        None => false,
    };
    report_if(waits, node, about_lane("`requires_approval` is not supported", id), errors);
    let stuck = gathered && !collected(graph, node.id.as_str());
    let mut reason = "no path leads from here to the `gather` that collects the lanes of scatter ".to_owned();
    reason.append(quoted(id).as_str());
    report_if(stuck, node, reason, errors);
    assert(views(errors@) =~= views(old(errors)@) + member_errors(graph@, scatter@, node@));
}

/// Reports what is wrong with the lanes a node opens.
pub fn check_lanes(graph: &WorkflowGraph, node: &Node, errors: &mut Vec<ValidationError>)
    ensures
        views(final(errors)@) == views(old(errors)@) + lane_errors(graph@, node@),
{
    if node.kind != NodeKind::Scatter {
        assert(views(errors@) =~= views(old(errors)@) + lane_errors(graph@, node@));
        return;
    }
    let scatter = node.id.as_str();
    let gathered = collected(graph, scatter);
    report_if(
        !gathered,
        node,
        "`scatter` must reach a `gather`, which collects its lanes".to_owned(),
        errors,
    );
    let ghost reported = views(errors@);
    let live = live_edges(graph, Some(NodeKind::Gather), scatter);
    let mut i: usize = 0;
    assert(views(errors@) =~= reported + members_errors(graph@, node@, 0));
    while i < graph.nodes.len()
        invariant
            i <= graph.nodes@.len(),
            live@.len() == graph.edges@.len(),
            scatter@ == node@.id,
            gathered == is_collected(graph@, node@.id),
            forall|j: int|
                0 <= j < live@.len() ==> (#[trigger] live@[j] <==> reachable(
                    graph@,
                    Some(NodeKind::Gather),
                    scatter@,
                    graph@.edges[j].from_node,
                ) && !is_kind(graph@, NodeKind::Gather, graph@.edges[j].from_node)),
            views(errors@) == reported + members_errors(graph@, node@, i as nat),
        decreases graph.nodes@.len() - i,
    {
        let member = &graph.nodes[i];
        assert(graph@.nodes[i as int] == member@);
        let inside = stands_in_lane(graph, &live, member.id.as_str());
        assert(inside == in_lane(graph@, node@.id, member@.id));
        if inside {
            check_member(graph, node, gathered, member, errors);
        }
        assert(views(errors@) =~= reported + members_errors(graph@, node@, (i + 1) as nat));
        i = i + 1;
    }
    assert(views(errors@) =~= views(old(errors)@) + lane_errors(graph@, node@));
}

proof fn lemma_no_member_errors(g: GraphView, scatter: NodeView, n: nat, i: int)
    requires
        members_errors(g, scatter, n).len() == 0,
        0 <= i < n,
    ensures
        member_errors(g, scatter, g.nodes[i]).len() == 0,
    decreases n,
{
    if i < n - 1 {
        lemma_no_member_errors(g, scatter, (n - 1) as nat, i);
    }
}

/// Lanes that are in order are collected, from every node in them, and hold no
/// further scatter, no loop head and nothing that waits for an approval.
pub proof fn lemma_lanes_in_order(g: GraphView, scatter: NodeView, i: int)
    requires
        scatter.kind == NodeKind::Scatter,
        lane_errors(g, scatter).len() == 0,
        0 <= i < g.nodes.len(),
        in_lane(g, scatter.id, g.nodes[i].id),
    ensures
        is_collected(g, scatter.id),
        is_collected(g, g.nodes[i].id),
        g.nodes[i].kind != NodeKind::Scatter,
        g.nodes[i].kind != NodeKind::Loop,
        !needs_approval(g.nodes[i]),
{
    lemma_no_member_errors(g, scatter, g.nodes.len(), i);
}

} // verus!
