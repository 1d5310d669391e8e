//! Walks along the edges of a workflow graph.
use vstd::prelude::*;

use crate::model::graph::{GraphView, NodeKind, WorkflowGraph};
use crate::text::same;

verus! {

/// Some node of the kind has this id.
pub open spec fn is_kind(g: GraphView, kind: NodeKind, id: Seq<char>) -> bool {
    exists|k: int|
        0 <= k < g.nodes.len() && (#[trigger] g.nodes[k]).kind == kind && g.nodes[k].id == id
}

/// A walk may leave the node of this id: it is not of the kind that ends walks.
pub open spec fn may_leave(g: GraphView, end: Option<NodeKind>, id: Seq<char>) -> bool {
    match end {
        Some(kind) => !is_kind(g, kind, id),
        None => true,
    }
}

/// Some edge leads from `a` to `b`.
pub open spec fn joined(g: GraphView, a: Seq<char>, b: Seq<char>) -> bool {
    exists|i: int|
        0 <= i < g.edges.len() && (#[trigger] g.edges[i]).from_node == a && g.edges[i].to_node == b
}

/// `path` runs along the graph's edges, and leaves no node that ends walks.
pub open spec fn is_path(g: GraphView, end: Option<NodeKind>, path: Seq<Seq<char>>) -> bool {
    &&& path.len() > 0
    &&& forall|i: int|
        0 < i < path.len() ==> joined(g, path[i - 1], #[trigger] path[i]) && may_leave(
            g,
            end,
            path[i - 1],
        )
}

/// Following edges from `from` can lead to `to`, without leaving a node of the
/// kind `end`.
pub open spec fn reachable(
    g: GraphView,
    end: Option<NodeKind>,
    from: Seq<char>,
    to: Seq<char>,
) -> bool {
    exists|path: Seq<Seq<char>>| #[trigger]
        is_path(g, end, path) && path[0] == from && path.last() == to
}

/// How many entries are false.
spec fn idle(live: Seq<bool>) -> nat
    decreases live.len(),
{
    if live.len() == 0 {
        0
    } else {
        idle(live.drop_last()) + (if live.last() {
            0nat
        } else {
            1nat
        })
    }
}

proof fn lemma_idle_falls(live: Seq<bool>, i: int)
    requires
        0 <= i < live.len(),
        !live[i],
    ensures
        idle(live.update(i, true)) + 1 == idle(live),
    decreases live.len(),
{
    let next = live.update(i, true);
    if i == live.len() - 1 {
        assert(next.drop_last() =~= live.drop_last());
    } else {
        assert(next.drop_last() =~= live.drop_last().update(i, true));
        lemma_idle_falls(live.drop_last(), i);
    }
}

/// `id` is `from`, or the target of a live edge.
pub open spec fn reached(g: GraphView, live: Seq<bool>, from: Seq<char>, id: Seq<char>) -> bool {
    id == from || exists|j: int|
        0 <= j < live.len() && #[trigger] live[j] && g.edges[j].to_node == id
}

/// Every reached id can be reached.
spec fn sound(g: GraphView, end: Option<NodeKind>, live: Seq<bool>, from: Seq<char>) -> bool {
    forall|j: int|
        0 <= j < live.len() && #[trigger] live[j] ==> reachable(
            g,
            end,
            from,
            g.edges[j].from_node,
        ) && may_leave(g, end, g.edges[j].from_node) && reachable(
            g,
            end,
            from,
            g.edges[j].to_node,
        )
}

proof fn lemma_step(g: GraphView, end: Option<NodeKind>, from: Seq<char>, edge: int)
    requires
        0 <= edge < g.edges.len(),
        reachable(g, end, from, g.edges[edge].from_node),
        may_leave(g, end, g.edges[edge].from_node),
    ensures
        reachable(g, end, from, g.edges[edge].to_node),
{
    let path = choose|path: Seq<Seq<char>>| #[trigger]
        is_path(g, end, path) && path[0] == from && path.last() == g.edges[edge].from_node;
    let longer = path.push(g.edges[edge].to_node);
    assert(g.edges[edge].from_node == path.last());
    assert forall|i: int| 0 < i < longer.len() implies joined(
        g,
        longer[i - 1],
        #[trigger] longer[i],
    ) && may_leave(g, end, longer[i - 1]) by {
        if i < path.len() {
            assert(longer[i] == path[i]);
            assert(longer[i - 1] == path[i - 1]);
        }
    }
    assert(is_path(g, end, longer));
    assert(longer[0] == from && longer.last() == g.edges[edge].to_node);
}

proof fn lemma_start(g: GraphView, end: Option<NodeKind>, from: Seq<char>)
    ensures
        reachable(g, end, from, from),
{
    let path = seq![from];
    assert(is_path(g, end, path));
    assert(path[0] == from && path.last() == from);
}

/// Where every edge that may be followed out of a reached id is live, everything that can be
/// reached has been.
proof fn lemma_closed(
    g: GraphView,
    end: Option<NodeKind>,
    live: Seq<bool>,
    from: Seq<char>,
    path: Seq<Seq<char>>,
)
    requires
        live.len() == g.edges.len(),
        forall|j: int|
            0 <= j < live.len() && reached(g, live, from, (#[trigger] g.edges[j]).from_node)
                && may_leave(g, end, g.edges[j].from_node) ==> live[j],
        is_path(g, end, path),
        path[0] == from,
    ensures
        reached(g, live, from, path.last()),
    decreases path.len(),
{
    if path.len() > 1 {
        let shorter = path.drop_last();
        assert forall|i: int| 0 < i < shorter.len() implies joined(
            g,
            shorter[i - 1],
            #[trigger] shorter[i],
        ) && may_leave(g, end, shorter[i - 1]) by {
            assert(shorter[i] == path[i]);
            assert(shorter[i - 1] == path[i - 1]);
        }
        lemma_closed(g, end, live, from, shorter);
        assert(joined(g, path[path.len() - 2], path[path.len() - 1]));
        let j = choose|j: int|
            0 <= j < g.edges.len() && (#[trigger] g.edges[j]).from_node == path[path.len() - 2]
                && g.edges[j].to_node == path[path.len() - 1];
        assert(reached(g, live, from, g.edges[j].from_node));
        assert(live[j]);
    }
}

/// Whether some node of the kind has this id.
pub fn has_kind(graph: &WorkflowGraph, kind: NodeKind, id: &str) -> (r: bool)
    ensures
        r == is_kind(graph@, kind, id@),
{
    let mut k: usize = 0;
    while k < graph.nodes.len()
        invariant
            k <= graph.nodes@.len(),
            forall|j: int|
                0 <= j < k ==> !((#[trigger] graph@.nodes[j]).kind == kind && graph@.nodes[j].id
                    == id@),
        decreases graph.nodes@.len() - k,
    {
        assert(graph@.nodes[k as int] == graph.nodes@[k as int]@);
        if graph.nodes[k].kind == kind && same(graph.nodes[k].id.as_str(), id) {
            return true;
        }
        k = k + 1;
    }
    false
}

fn can_leave(graph: &WorkflowGraph, end: Option<NodeKind>, id: &str) -> (r: bool)
    ensures
        r == may_leave(graph@, end, id@),
{
    match end {
        Some(kind) => !has_kind(graph, kind, id),
        None => true,
    }
}

/// Whether `id` is `from`, or the target of a live edge.
pub fn is_reached(graph: &WorkflowGraph, live: &Vec<bool>, from: &str, id: &str) -> (r: bool)
    requires
        live@.len() == graph.edges@.len(),
    ensures
        r == reached(graph@, live@, from@, id@),
{
    if same(from, id) {
        return true;
    }
    let mut j: usize = 0;
    while j < live.len()
        invariant
            j <= live@.len(),
            live@.len() == graph.edges@.len(),
            forall|k: int| 0 <= k < j && #[trigger] live@[k] ==> graph@.edges[k].to_node != id@,
        decreases live@.len() - j,
    {
        assert(graph@.edges[j as int] == graph.edges@[j as int]@);
        if live[j] && same(graph.edges[j].to_node.as_str(), id) {
            return true;
        }
        j = j + 1;
    }
    false
}

/// The edges that can be followed from `from` without leaving a node of the
/// kind `end`: each starts at an id that can be reached, and their targets are,
/// with `from`, all the ids that can.
pub fn live_edges(
    graph: &WorkflowGraph,
    end: Option<NodeKind>,
    from: &str,
) -> (live: Vec<bool>)
    ensures
        live@.len() == graph.edges@.len(),
        forall|id: Seq<char>| #[trigger]
            reached(graph@, live@, from@, id) <==> reachable(graph@, end, from@, id),
        forall|j: int|
            0 <= j < live@.len() ==> (#[trigger] live@[j] <==> reachable(
                graph@,
                end,
                from@,
                graph@.edges[j].from_node,
            ) && may_leave(graph@, end, graph@.edges[j].from_node)),
{
    let mut live: Vec<bool> = Vec::new();
    let mut n: usize = 0;
    while n < graph.edges.len()
        invariant
            n <= graph.edges@.len(),
            live@.len() == n,
            forall|k: int| 0 <= k < n ==> !(#[trigger] live@[k]),
        decreases graph.edges@.len() - n,
    {
        live.push(false);
        n = n + 1;
    }
    let mut settled = false;
    while !settled
        invariant
            live@.len() == graph.edges@.len(),
            sound(graph@, end, live@, from@),
            settled ==> forall|j: int|
                0 <= j < live@.len() && reached(
                    graph@,
                    live@,
                    from@,
                    (#[trigger] graph@.edges[j]).from_node,
                ) && may_leave(graph@, end, graph@.edges[j].from_node) ==> live@[j],
        decreases
            idle(live@),
            (if settled {
                0int
            } else {
                1int
            }),
    {
        let ghost before = live@;
        settled = true;
        let mut i: usize = 0;
        while i < graph.edges.len()
            invariant
                i <= graph.edges@.len(),
                live@.len() == graph.edges@.len(),
                sound(graph@, end, live@, from@),
                settled ==> live@ == before,
                settled ==> forall|j: int|
                    0 <= j < i && reached(
                        graph@,
                        live@,
                        from@,
                        (#[trigger] graph@.edges[j]).from_node,
                    ) && may_leave(graph@, end, graph@.edges[j].from_node) ==> live@[j],
                !settled ==> idle(live@) < idle(before),
            decreases graph.edges@.len() - i,
        {
            assert(graph@.edges[i as int] == graph.edges@[i as int]@);
            let source = graph.edges[i].from_node.as_str();
            if !live[i] && is_reached(graph, &live, from, source) && can_leave(graph, end, source) {
                proof {
                    lemma_idle_falls(live@, i as int);
                    lemma_start(graph@, end, from@);
                    lemma_step(graph@, end, from@, i as int);
                }
                live.set(i, true);
                settled = false;
            }
            i = i + 1;
        }
    }
    proof {
        assert forall|id: Seq<char>| #[trigger]
            reached(graph@, live@, from@, id) <==> reachable(graph@, end, from@, id) by {
            lemma_start(graph@, end, from@);
            if reachable(graph@, end, from@, id) {
                let path = choose|path: Seq<Seq<char>>| #[trigger]
                    is_path(graph@, end, path) && path[0] == from@ && path.last() == id;
                lemma_closed(graph@, end, live@, from@, path);
            }
        }
    }
    live
}

} // verus!
