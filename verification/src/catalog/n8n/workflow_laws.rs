//! What holds of every imported workflow.
use vstd::prelude::*;

use crate::catalog::n8n::node_mapping::{mapped_node, node_warnings, placeholder};
use crate::catalog::n8n::workflow::{
    connect, connect_all, connect_outputs, connect_targets, connections_of, dangling_warning,
    demoted_warning, entries_of, fresh_id, imported, is_n8n, is_reached, items_of, last_named,
    lemma_longest, lemma_read_nodes, longest, node_ids, port_name, position_of, read_node,
    read_nodes, roots, twin_warning, Reading, Wiring,
};
use crate::json::{lemma_member_reads, JsonView, NumberView};
use crate::model::graph::{EdgeView, NodeKind, NodeView};
use crate::text::{decimal, lemma_occurs_last, lemma_occurs_on, occurs_in};

verus! {

/// The nodes of an export.
pub open spec fn exported(workflow: JsonView) -> Seq<JsonView> {
    workflow.at("nodes"@)->Array_0
}

/// Where node `i` of an export stands in its import: behind the trigger, where
/// one was added.
pub open spec fn stands_at(workflow: JsonView, i: int) -> int {
    let graph = imported(workflow)->Ok_0.0;
    i + (graph.nodes.len() - exported(workflow).len())
}

/// An earlier node of an export is a trigger.
pub open spec fn has_earlier_trigger(raw: Seq<JsonView>, i: int) -> bool {
    exists|k: int|
        0 <= k < i && #[trigger] mapped_node(
            raw[k].text_or_empty("type"@),
            raw[k].at("parameters"@),
        ).0 == NodeKind::Trigger
}

proof fn lemma_has_trigger(raw: Seq<JsonView>, n: nat)
    requires
        n <= raw.len(),
    ensures
        read_nodes(raw, n).has_trigger == has_earlier_trigger(raw, n as int),
    decreases n,
{
    if n > 0 {
        lemma_has_trigger(raw, (n - 1) as nat);
        let last = mapped_node(
            raw[n - 1].text_or_empty("type"@),
            raw[n - 1].at("parameters"@),
        ).0;
        if has_earlier_trigger(raw, n as int) {
            let k = choose|k: int|
                0 <= k < n && #[trigger] mapped_node(
                    raw[k].text_or_empty("type"@),
                    raw[k].at("parameters"@),
                ).0 == NodeKind::Trigger;
            if k < n - 1 {
                assert(has_earlier_trigger(raw, n - 1));
            }
        }
        if has_earlier_trigger(raw, n - 1) {
            let k = choose|k: int|
                0 <= k < n - 1 && #[trigger] mapped_node(
                    raw[k].text_or_empty("type"@),
                    raw[k].at("parameters"@),
                ).0 == NodeKind::Trigger;
            assert(has_earlier_trigger(raw, n as int));
        }
    }
}

proof fn lemma_read_prefix(raw: Seq<JsonView>, n: nat, i: int)
    requires
        0 <= i < n <= raw.len(),
    ensures
        read_nodes(raw, n).nodes.len() == n,
        read_nodes(raw, n).names.len() == n,
        read_nodes(raw, n).nodes[i] == read_nodes(raw, (i + 1) as nat).nodes[i],
        read_nodes(raw, n).names[i] == read_nodes(raw, (i + 1) as nat).names[i],
    decreases n,
{
    lemma_read_nodes(raw, n);
    lemma_read_nodes(raw, (n - 1) as nat);
    if i < n - 1 {
        lemma_read_prefix(raw, (n - 1) as nat, i);
    }
}

/// The import of a node of an export: under its own id and name, at its own
/// place, mapped by its type and parameters; but a trigger that is not the first
/// becomes a placeholder that keeps both.
pub open spec fn is_import_of(node: NodeView, raw: Seq<JsonView>, i: int) -> bool {
    let n8n_type = raw[i].text_or_empty("type"@);
    let params = raw[i].at("parameters"@);
    let mapped = mapped_node(n8n_type, params);
    let further = mapped.0 == NodeKind::Trigger && has_earlier_trigger(raw, i);
    &&& raw[i].has_text("id"@) ==> Some(node.id) == raw[i].text_at("id"@)
    &&& !raw[i].has_text("id"@) && raw[i].has_text("name"@) ==> Some(node.id) == raw[i].text_at(
        "name"@,
    )
    &&& raw[i].has_text("name"@) ==> Some(node.name) == raw[i].text_at("name"@)
    &&& !raw[i].has_text("name"@) ==> node.name == node.id
    &&& !further ==> node.kind == mapped.0 && node.config == mapped.1
    &&& further ==> node.kind == NodeKind::Transform && node.config.get("parameters"@) == Some(
        params,
    ) && node.config.at("_n8n_import"@).text_at("original_type"@) == Some(n8n_type)
    &&& raw[i].at("position"@) matches JsonView::Array(at) ==> (at.len() >= 2 ==> (
    at[0] matches JsonView::Number(x) ==> (at[1] matches JsonView::Number(y) ==> (
    node.position matches Some(shown) && shown.x == x && shown.y == y))))
    &&& !(raw[i].at("position"@) is Array) ==> node.position is None
}

proof fn lemma_import(raw: Seq<JsonView>, i: int)
    requires
        0 <= i < raw.len(),
    ensures
        is_import_of(read_nodes(raw, (i + 1) as nat).nodes[i], raw, i),
        read_nodes(raw, (i + 1) as nat).names[i] == read_nodes(raw, (i + 1) as nat).nodes[i].name,
{
    lemma_read_nodes(raw, i as nat);
    lemma_has_trigger(raw, i as nat);
    let n8n_type = raw[i].text_or_empty("type"@);
    let params = raw[i].at("parameters"@);
    let kept = placeholder(n8n_type, params);
    reveal_strlit("_n8n_import");
    reveal_strlit("parameters");
    assert("_n8n_import"@.len() == 11 && "parameters"@.len() == 10);
    lemma_member_reads(kept->Object_0, 0);
    lemma_member_reads(kept->Object_0, 1);
    lemma_member_reads(kept->Object_0[0].1->Object_0, 0);
}

proof fn lemma_stands(workflow: JsonView, i: int)
    requires
        workflow.at("nodes"@) is Array,
        0 <= i < exported(workflow).len(),
    ensures
        imported(workflow) is Ok,
        ({
            let raw = exported(workflow);
            let read = read_nodes(raw, raw.len());
            let graph = imported(workflow)->Ok_0.0;
            &&& 0 <= stands_at(workflow, i) < graph.nodes.len()
            &&& graph.nodes[stands_at(workflow, i)] == read.nodes[i]
        }),
{
    let raw = exported(workflow);
    lemma_read_nodes(raw, raw.len());
}

/// Every node of an export is in its import, in order, as what it was.
pub proof fn nodes_are_imported_as_they_were(workflow: JsonView, i: int)
    requires
        workflow.at("nodes"@) is Array,
        0 <= i < exported(workflow).len(),
    ensures
        imported(workflow) matches Ok(done) && {
            &&& 0 <= stands_at(workflow, i) < done.0.nodes.len()
            &&& is_import_of(done.0.nodes[stands_at(workflow, i)], exported(workflow), i)
        },
{
    let raw = exported(workflow);
    lemma_stands(workflow, i);
    lemma_read_prefix(raw, raw.len(), i);
    lemma_import(raw, i);
}

/// Nothing else is in an import but, where the export has no trigger, one that is
/// started by hand, under an id of its own, which leads to where the flow begins.
pub proof fn a_trigger_is_added_where_there_is_none(workflow: JsonView)
    requires
        workflow.at("nodes"@) is Array,
    ensures
        imported(workflow) matches Ok(done) && {
            let raw = exported(workflow);
            let triggered = has_earlier_trigger(raw, raw.len() as int);
            &&& triggered ==> done.0.nodes.len() == raw.len()
            &&& !triggered ==> {
                &&& done.0.nodes.len() == raw.len() + 1
                &&& done.0.nodes[0].kind == NodeKind::Trigger
                &&& done.0.nodes[0].config.text_at("trigger_kind"@) == Some("manual"@)
                &&& forall|k: int|
                    0 < k < done.0.nodes.len() ==> (#[trigger] done.0.nodes[k]).id
                        != done.0.nodes[0].id
                &&& done.1.len() > 0
            }
        },
{
    let raw = exported(workflow);
    let read = read_nodes(raw, raw.len());
    lemma_read_nodes(raw, raw.len());
    lemma_has_trigger(raw, raw.len());
    if !read.has_trigger {
        let graph = imported(workflow)->Ok_0.0;
        let ids = node_ids(read.nodes);
        lemma_fresh(ids, "trigger"@);
        lemma_member_reads(graph.nodes[0].config->Object_0, 0);
        assert forall|k: int| 0 < k < graph.nodes.len() implies (#[trigger] graph.nodes[k]).id
            != graph.nodes[0].id by {
            assert(graph.nodes[k] == read.nodes[k - 1]);
            assert(ids[k - 1] == read.nodes[k - 1].id);
        }
    }
}

proof fn lemma_fresh(ids: Seq<Seq<char>>, base: Seq<char>)
    ensures
        !ids.contains(fresh_id(ids, base)),
    decreases longest(ids) + 1 - base.len(),
{
    if ids.contains(base) {
        lemma_longest(ids, base);
        lemma_fresh(ids, base.push('_'));
    }
}

/// A node that no edge leads to is led to by the added trigger.
pub proof fn loose_nodes_are_started(workflow: JsonView, i: int)
    requires
        workflow.at("nodes"@) is Array,
        0 <= i < exported(workflow).len(),
        !has_earlier_trigger(exported(workflow), exported(workflow).len() as int),
        imported(workflow) matches Ok(done) && {
            let id = done.0.nodes[i + 1].id;
            forall|k: int|
                0 <= k < done.0.edges.len() && (#[trigger] done.0.edges[k]).from_node
                    != done.0.nodes[0].id ==> done.0.edges[k].to_node != id
        },
    ensures
        imported(workflow) matches Ok(done) && exists|k: int|
            0 <= k < done.0.edges.len() && #[trigger] done.0.edges[k] == (EdgeView {
                from_node: done.0.nodes[0].id,
                from_port: "main"@,
                to_node: done.0.nodes[i + 1].id,
                to_port: "main"@,
            }),
{
    let raw = exported(workflow);
    let read = read_nodes(raw, raw.len());
    let connections = connections_of(workflow);
    let wired = connect_all(read, connections, connections.len());
    let graph = imported(workflow)->Ok_0.0;
    lemma_read_nodes(raw, raw.len());
    lemma_has_trigger(raw, raw.len());
    let id = read.nodes[i].id;
    let fresh = graph.nodes[0].id;
    lemma_fresh(node_ids(read.nodes), "trigger"@);
    assert(graph.nodes[i + 1] == read.nodes[i]);
    assert forall|k: int| 0 <= k < wired.edges.len() implies (#[trigger] wired.edges[k]).to_node
        != id by {
        assert(graph.edges[k] == wired.edges[k]);
        if wired.edges[k].from_node == fresh {
            lemma_edges_from_nodes(read, connections, connections.len(), k);
            assert(node_ids(read.nodes).contains(fresh));
        }
    }
    assert(!is_reached(wired.edges, id));
    lemma_roots(read.nodes, wired.edges, read.nodes.len(), i);
    let starts = entries_of(read.nodes, wired.edges);
    let at = choose|at: int| 0 <= at < starts.len() && starts[at] == id;
    assert(graph.edges[wired.edges.len() + at].to_node == id);
    let made = EdgeView {
        from_node: fresh,
        from_port: "main"@,
        to_node: id,
        to_port: "main"@,
    };
    assert(graph.edges[wired.edges.len() + at] == made);
}

proof fn lemma_roots(nodes: Seq<NodeView>, edges: Seq<EdgeView>, n: nat, i: int)
    requires
        0 <= i < n <= nodes.len(),
        !is_reached(edges, nodes[i].id),
    ensures
        roots(nodes, edges, n).contains(nodes[i].id),
    decreases n,
{
    if i < n - 1 {
        lemma_roots(nodes, edges, (n - 1) as nat, i);
        let before = roots(nodes, edges, (n - 1) as nat);
        let at = choose|at: int| 0 <= at < before.len() && before[at] == nodes[i].id;
        assert(roots(nodes, edges, n)[at] == nodes[i].id);
    } else {
        let after = roots(nodes, edges, n);
        assert(after[after.len() - 1] == nodes[i].id);
    }
}

proof fn lemma_last_named_at(names: Seq<Seq<char>>, name: Seq<char>, i: int)
    requires
        0 <= i < names.len(),
        names[i] == name,
        forall|k: int| i < k < names.len() ==> (#[trigger] names[k]) != name,
    ensures
        last_named(names, name) == Some(i),
    decreases names.len(),
{
    if i < names.len() - 1 {
        assert(names[names.len() - 1] != name);
        let rest = names.drop_last();
        lemma_last_named_at(rest, name, i);
    }
}

proof fn lemma_last_named_in(names: Seq<Seq<char>>, name: Seq<char>)
    ensures
        match last_named(names, name) {
            Some(i) => 0 <= i < names.len() && names[i] == name,
            None => forall|k: int| 0 <= k < names.len() ==> (#[trigger] names[k]) != name,
        },
    decreases names.len(),
{
    if names.len() > 0 && names.last() != name {
        lemma_last_named_in(names.drop_last(), name);
        if last_named(names, name) is None {
            assert forall|k: int| 0 <= k < names.len() implies (#[trigger] names[k]) != name by {
                if k < names.len() - 1 {
                    assert(names.drop_last()[k] == names[k]);
                }
            }
        }
    }
}

/// Every edge that was wired leaves a node.
proof fn lemma_edges_from_nodes(
    read: Reading,
    connections: Seq<(Seq<char>, JsonView)>,
    n: nat,
    k: int,
)
    requires
        n <= connections.len(),
        read.names.len() == read.nodes.len(),
        0 <= k < connect_all(read, connections, n).edges.len(),
    ensures
        node_ids(read.nodes).contains(connect_all(read, connections, n).edges[k].from_node),
    decreases n,
{
    if n > 0 {
        let before = connect_all(read, connections, (n - 1) as nat);
        let (from, outs) = connections[n - 1];
        let outputs = items_of(outs.at("main"@));
        if k < before.edges.len() {
            lemma_edges_from_nodes(read, connections, (n - 1) as nat, k);
        }
        lemma_outputs_from(before, read, from, outputs, outputs.len(), k);
    }
}

proof fn lemma_outputs_from(
    before: Wiring,
    read: Reading,
    from: Seq<char>,
    outputs: Seq<JsonView>,
    n: nat,
    k: int,
)
    requires
        n <= outputs.len(),
        read.names.len() == read.nodes.len(),
        0 <= k < connect_outputs(before, read, from, outputs, n).edges.len(),
        0 <= k < before.edges.len() ==> node_ids(read.nodes).contains(before.edges[k].from_node),
    ensures
        node_ids(read.nodes).contains(
            connect_outputs(before, read, from, outputs, n).edges[k].from_node,
        ),
    decreases n,
{
    if n > 0 {
        let mid = connect_outputs(before, read, from, outputs, (n - 1) as nat);
        if k < mid.edges.len() {
            lemma_outputs_from(before, read, from, outputs, (n - 1) as nat, k);
        }
        let targets = items_of(outputs[n - 1]);
        lemma_targets_from(mid, read, from, (n - 1) as nat, targets, targets.len(), k);
    }
}

proof fn lemma_targets_from(
    before: Wiring,
    read: Reading,
    from: Seq<char>,
    output: nat,
    targets: Seq<JsonView>,
    n: nat,
    k: int,
)
    requires
        n <= targets.len(),
        read.names.len() == read.nodes.len(),
        0 <= k < connect_targets(before, read, from, output, targets, n).edges.len(),
        0 <= k < before.edges.len() ==> node_ids(read.nodes).contains(before.edges[k].from_node),
    ensures
        node_ids(read.nodes).contains(
            connect_targets(before, read, from, output, targets, n).edges[k].from_node,
        ),
    decreases n,
{
    if n > 0 {
        let mid = connect_targets(before, read, from, output, targets, (n - 1) as nat);
        if k < mid.edges.len() {
            lemma_targets_from(before, read, from, output, targets, (n - 1) as nat, k);
        } else {
            lemma_last_named_in(read.names, from);
            let f = last_named(read.names, from)->0;
            assert(node_ids(read.nodes)[f] == read.nodes[f].id);
        }
    }
}

/// The node at a place is the one that connections by a name go to: the last that
/// bears it.
pub open spec fn bears(nodes: Seq<NodeView>, i: int, name: Seq<char>) -> bool {
    &&& 0 <= i < nodes.len()
    &&& nodes[i].name == name
    &&& forall|k: int| i < k < nodes.len() ==> (#[trigger] nodes[k]).name != name
}

/// The port that an output of a node goes by: a condition's first output is for
/// what holds and any other for what does not, a switch's outputs are numbered,
/// and any other node has one.
pub open spec fn leaves_by(kind: NodeKind, output: nat, port: Seq<char>) -> bool {
    &&& kind == NodeKind::Condition && output == 0 ==> port == "true"@
    &&& kind == NodeKind::Condition && output > 0 ==> port == "false"@
    &&& kind == NodeKind::Switch ==> port == decimal(output)
    &&& kind != NodeKind::Condition && kind != NodeKind::Switch ==> port == "main"@
}

/// The connection at a place of an export: from the node of a name, by an
/// output, to the node of a name.
pub open spec fn connects(
    workflow: JsonView,
    c: int,
    output: int,
    target: int,
    from: Seq<char>,
    to: Seq<char>,
) -> bool {
    &&& workflow.at("connections"@) matches JsonView::Object(connections)
    &&& 0 <= c < connections.len()
    &&& connections[c].0 == from
    &&& connections[c].1.at("main"@) matches JsonView::Array(outputs)
    &&& 0 <= output < outputs.len()
    &&& outputs[output] matches JsonView::Array(targets)
    &&& 0 <= target < targets.len()
    &&& targets[target].text_at("node"@) == Some(to)
}

proof fn lemma_names_are_names(raw: Seq<JsonView>, i: int)
    requires
        0 <= i < raw.len(),
    ensures
        read_nodes(raw, raw.len()).names[i] == read_nodes(raw, raw.len()).nodes[i].name,
{
    lemma_read_prefix(raw, raw.len(), i);
    lemma_import(raw, i);
}

/// Every connection between nodes of an export is an edge of its import, by the
/// port that its output goes by.
pub proof fn connections_become_edges(
    workflow: JsonView,
    c: int,
    output: int,
    target: int,
    from: Seq<char>,
    to: Seq<char>,
    f: int,
    t: int,
)
    requires
        workflow.at("nodes"@) is Array,
        connects(workflow, c, output, target, from, to),
        imported(workflow) matches Ok(done) && {
            let own = done.0.nodes.skip(done.0.nodes.len() - exported(workflow).len());
            bears(own, f, from) && bears(own, t, to)
        },
    ensures
        imported(workflow) matches Ok(done) && {
            let own = done.0.nodes.skip(done.0.nodes.len() - exported(workflow).len());
            exists|k: int|
                0 <= k < done.0.edges.len() && (#[trigger] done.0.edges[k]).from_node == own[f].id
                    && done.0.edges[k].to_node == own[t].id && leaves_by(
                    own[f].kind,
                    output as nat,
                    done.0.edges[k].from_port,
                ) && done.0.edges[k].to_port == "main"@
        },
{
    let raw = exported(workflow);
    let read = read_nodes(raw, raw.len());
    let graph = imported(workflow)->Ok_0.0;
    lemma_read_nodes(raw, raw.len());
    let own = graph.nodes.skip(graph.nodes.len() - raw.len());
    assert(own =~= read.nodes);
    lemma_names_are_names(raw, f);
    lemma_names_are_names(raw, t);
    assert forall|k: int| f < k < read.names.len() implies (#[trigger] read.names[k]) != from by {
        lemma_names_are_names(raw, k);
        assert(own[k].name != from);
    }
    assert forall|k: int| t < k < read.names.len() implies (#[trigger] read.names[k]) != to by {
        lemma_names_are_names(raw, k);
        assert(own[k].name != to);
    }
    lemma_last_named_at(read.names, from, f);
    lemma_last_named_at(read.names, to, t);
    let connections = connections_of(workflow);
    let edge = EdgeView {
        from_node: read.nodes[f].id,
        from_port: port_name(Some(read.nodes[f].kind), output as nat),
        to_node: read.nodes[t].id,
        to_port: "main"@,
    };
    lemma_wired(read, connections, connections.len(), c, output, target, edge);
    let wired = connect_all(read, connections, connections.len());
    let k = choose|k: int| 0 <= k < wired.edges.len() && wired.edges[k] == edge;
    assert(graph.edges[k] == edge);
}

proof fn lemma_wired(
    read: Reading,
    connections: Seq<(Seq<char>, JsonView)>,
    n: nat,
    c: int,
    output: int,
    target: int,
    edge: EdgeView,
)
    requires
        0 <= c < n <= connections.len(),
        ({
            let outputs = items_of(connections[c].1.at("main"@));
            let targets = items_of(outputs[output]);
            let made = connect(
                Wiring { edges: Seq::empty(), warnings: Seq::empty() },
                read,
                connections[c].0,
                output as nat,
                targets[target],
            );
            &&& 0 <= output < outputs.len()
            &&& 0 <= target < targets.len()
            &&& made.edges.len() == 1
            &&& made.edges[0] == edge
        }),
    ensures
        connect_all(read, connections, n).edges.contains(edge),
    decreases n,
{
    let (from, outs) = connections[n - 1];
    let outputs = items_of(outs.at("main"@));
    let before = connect_all(read, connections, (n - 1) as nat);
    if c < n - 1 {
        lemma_wired(read, connections, (n - 1) as nat, c, output, target, edge);
        lemma_outputs_keep(before, read, from, outputs, outputs.len(), edge);
    } else {
        lemma_outputs_wired(before, read, from, outputs, outputs.len(), output, target, edge);
    }
}

proof fn lemma_targets_keep(
    before: Wiring,
    read: Reading,
    from: Seq<char>,
    output: nat,
    targets: Seq<JsonView>,
    n: nat,
    edge: EdgeView,
)
    requires
        n <= targets.len(),
        before.edges.contains(edge),
    ensures
        connect_targets(before, read, from, output, targets, n).edges.contains(edge),
    decreases n,
{
    if n > 0 {
        lemma_targets_keep(before, read, from, output, targets, (n - 1) as nat, edge);
        let mid = connect_targets(before, read, from, output, targets, (n - 1) as nat);
        let k = choose|k: int| 0 <= k < mid.edges.len() && mid.edges[k] == edge;
        assert(connect_targets(before, read, from, output, targets, n).edges[k] == edge);
    }
}

proof fn lemma_targets_wired(
    before: Wiring,
    read: Reading,
    from: Seq<char>,
    output: nat,
    targets: Seq<JsonView>,
    n: nat,
    target: int,
    edge: EdgeView,
)
    requires
        0 <= target < n <= targets.len(),
        ({
            let made = connect(
                Wiring { edges: Seq::empty(), warnings: Seq::empty() },
                read,
                from,
                output,
                targets[target],
            );
            made.edges.len() == 1 && made.edges[0] == edge
        }),
    ensures
        connect_targets(before, read, from, output, targets, n).edges.contains(edge),
    decreases n,
{
    let mid = connect_targets(before, read, from, output, targets, (n - 1) as nat);
    let after = connect_targets(before, read, from, output, targets, n);
    if target < n - 1 {
        lemma_targets_wired(before, read, from, output, targets, (n - 1) as nat, target, edge);
        let k = choose|k: int| 0 <= k < mid.edges.len() && mid.edges[k] == edge;
        assert(after.edges[k] == edge);
    } else {
        assert(after.edges[mid.edges.len() as int] == edge);
    }
}

proof fn lemma_outputs_keep(
    before: Wiring,
    read: Reading,
    from: Seq<char>,
    outputs: Seq<JsonView>,
    n: nat,
    edge: EdgeView,
)
    requires
        n <= outputs.len(),
        before.edges.contains(edge),
    ensures
        connect_outputs(before, read, from, outputs, n).edges.contains(edge),
    decreases n,
{
    if n > 0 {
        lemma_outputs_keep(before, read, from, outputs, (n - 1) as nat, edge);
        let mid = connect_outputs(before, read, from, outputs, (n - 1) as nat);
        let targets = items_of(outputs[n - 1]);
        lemma_targets_keep(mid, read, from, (n - 1) as nat, targets, targets.len(), edge);
    }
}

proof fn lemma_outputs_wired(
    before: Wiring,
    read: Reading,
    from: Seq<char>,
    outputs: Seq<JsonView>,
    n: nat,
    output: int,
    target: int,
    edge: EdgeView,
)
    requires
        0 <= output < n <= outputs.len(),
        ({
            let targets = items_of(outputs[output]);
            let made = connect(
                Wiring { edges: Seq::empty(), warnings: Seq::empty() },
                read,
                from,
                output as nat,
                targets[target],
            );
            &&& 0 <= target < targets.len()
            &&& made.edges.len() == 1
            &&& made.edges[0] == edge
        }),
    ensures
        connect_outputs(before, read, from, outputs, n).edges.contains(edge),
    decreases n,
{
    let mid = connect_outputs(before, read, from, outputs, (n - 1) as nat);
    let targets = items_of(outputs[n - 1]);
    if output < n - 1 {
        lemma_outputs_wired(before, read, from, outputs, (n - 1) as nat, output, target, edge);
        lemma_targets_keep(mid, read, from, (n - 1) as nat, targets, targets.len(), edge);
    } else {
        lemma_targets_wired(
            mid,
            read,
            from,
            (n - 1) as nat,
            targets,
            targets.len(),
            target,
            edge,
        );
    }
}

/// A connection to or from a node that the export does not have becomes no edge,
/// and is reported.
pub proof fn dangling_connections_are_reported(
    before: Wiring,
    read: Reading,
    from: Seq<char>,
    output: nat,
    target: JsonView,
)
    requires
        !read.names.contains(from) || !read.names.contains(target.text_or_empty("node"@)),
    ensures
        connect(before, read, from, output, target).edges == before.edges,
        connect(before, read, from, output, target).warnings.len() == before.warnings.len() + 1,
        connect(before, read, from, output, target).warnings.drop_last() == before.warnings,
{
    lemma_last_named_in(read.names, from);
    lemma_last_named_in(read.names, target.text_or_empty("node"@));
    assert(connect(before, read, from, output, target).warnings.drop_last() =~= before.warnings);
}

/// An import goes by the name of its export, and one without a list of nodes is
/// refused.
pub proof fn imports_go_by_their_name(workflow: JsonView)
    ensures
        workflow.at("nodes"@) is Array <==> imported(workflow) is Ok,
        imported(workflow) matches Ok(done) ==> (workflow.text_at("name"@) matches Some(name)
            ==> done.0.name == name),
{
}

/// Whatever has connections looks like an export, and so does whatever has a node
/// with a type; and nothing else does.
pub proof fn exports_are_told_apart(value: JsonView)
    ensures
        value.get("connections"@) is Some ==> is_n8n(value),
        (value.at("nodes"@) matches JsonView::Array(nodes) && exists|i: int|
            0 <= i < nodes.len() && (#[trigger] nodes[i]).text_at("type"@) is Some) ==> is_n8n(
            value,
        ),
        value.get("connections"@) is None && !(value.at("nodes"@) is Array) ==> !is_n8n(value),
        (value.get("connections"@) is None && (value.at("nodes"@) matches JsonView::Array(nodes)
            && forall|i: int|
            0 <= i < nodes.len() ==> (#[trigger] nodes[i]).text_at("type"@) is None)) ==> !is_n8n(
            value,
        ),
{
}

/// A connection between two nodes makes one edge, behind those made before it, and
/// nothing is said of it.
pub proof fn a_connection_makes_one_edge(
    before: Wiring,
    read: Reading,
    from: Seq<char>,
    output: nat,
    target: JsonView,
    f: int,
    t: int,
)
    requires
        0 <= f < read.names.len(),
        read.names[f] == from,
        forall|k: int| f < k < read.names.len() ==> (#[trigger] read.names[k]) != from,
        0 <= t < read.names.len(),
        target.get("node"@) == Some(JsonView::String(read.names[t])),
        forall|k: int| t < k < read.names.len() ==> (#[trigger] read.names[k]) != read.names[t],
    ensures
        ({
            let after = connect(before, read, from, output, target);
            &&& after.warnings == before.warnings
            &&& after.edges.len() == before.edges.len() + 1
            &&& after.edges.drop_last() == before.edges
            &&& after.edges.last().from_node == read.nodes[f].id
            &&& after.edges.last().to_node == read.nodes[t].id
            &&& after.edges.last().to_port == "main"@
            &&& leaves_by(read.nodes[f].kind, output, after.edges.last().from_port)
        }),
{
    lemma_last_named_at(read.names, from, f);
    lemma_last_named_at(read.names, read.names[t], t);
    let after = connect(before, read, from, output, target);
    assert(after.edges.drop_last() =~= before.edges);
}

/// A further node adds what is said of it: that its name is taken, where an earlier
/// node has it, what its own mapping says, and that it is no longer a trigger, where
/// there is one already.
pub proof fn a_further_node_says_what_became_of_it(before: Reading, raw: JsonView)
    requires
        before.names.len() == before.nodes.len(),
    ensures
        ({
            let after = read_node(before, raw);
            let name = after.names.last();
            let own = node_warnings(
                raw.text_or_empty("type"@),
                raw.at("parameters"@),
                name,
            );
            let taken = before.names.contains(name);
            let trigger = mapped_node(
                raw.text_or_empty("type"@),
                raw.at("parameters"@),
            ).0 == NodeKind::Trigger;
            let first: int = if taken {
                1
            } else {
                0
            };
            let last: int = if trigger && before.has_trigger {
                1
            } else {
                0
            };
            &&& after.nodes.len() == before.nodes.len() + 1
            &&& after.nodes.drop_last() == before.nodes
            &&& after.has_trigger == (before.has_trigger || trigger)
            &&& after.warnings.len() == before.warnings.len() + first + own.len() + last
            &&& before.warnings.is_prefix_of(after.warnings)
            &&& taken ==> occurs_in(after.warnings[before.warnings.len() as int], name)
                && occurs_in(
                after.warnings[before.warnings.len() as int],
                after.nodes.last().id,
            )
            &&& trigger && before.has_trigger ==> occurs_in(after.warnings.last(), name)
                && after.nodes.last().kind == NodeKind::Transform
            &&& !(trigger && before.has_trigger) ==> after.nodes.last().kind
                == mapped_node(
                raw.text_or_empty("type"@),
                raw.at("parameters"@),
            ).0
        }),
{
    let after = read_node(before, raw);
    let name = after.names.last();
    lemma_last_named_in(before.names, name);
    assert(after.nodes.drop_last() =~= before.nodes);
    let n = before.warnings.len() as int;
    assert(after.warnings.subrange(0, n) =~= before.warnings);
    match last_named(before.names, name) {
        Some(i) => {
            let one = before.nodes[i].id;
            let id = after.nodes.last().id;
            assert(after.warnings[n] == twin_warning(one, id, name));
            let w0 = "Nodes '"@;
            let w1 = w0 + one;
            let w2 = w1 + "' and '"@;
            let w3 = w2 + id;
            let w4 = w3 + "' are both named '"@;
            let w5 = w4 + name;
            let w6 = w5 + "'; connections by that name go to '"@;
            let w7 = w6 + id;
            let w8 = w7 + "'."@;
            lemma_occurs_last(w2, id);
            lemma_occurs_on(w3, "' are both named '"@, id);
            lemma_occurs_on(w4, name, id);
            lemma_occurs_on(w5, "'; connections by that name go to '"@, id);
            lemma_occurs_on(w6, id, id);
            lemma_occurs_on(w7, "'."@, id);
            lemma_occurs_last(w4, name);
            lemma_occurs_on(w5, "'; connections by that name go to '"@, name);
            lemma_occurs_on(w6, id, name);
            lemma_occurs_on(w7, "'."@, name);
        },
        None => {},
    }
    let said = demoted_warning(name);
    let front = "Node '"@ + name;
    let head = front + "'"@;
    lemma_occurs_last("Node '"@, name);
    lemma_occurs_on(front, "'"@, name);
    lemma_occurs_on(
        head,
        " is a further trigger; a flow has one, so it was imported as an editable placeholder."@,
        name,
    );
    assert(occurs_in(said, name));
}

/// A dropped connection is reported with both its ends.
pub proof fn dropped_connections_name_their_ends(from: Seq<char>, to: Seq<char>)
    ensures
        occurs_in(dangling_warning(from, to), from),
        occurs_in(dangling_warning(from, to), to),
{
    let w0 = "Dropped a connection from '"@;
    let w1 = w0 + from;
    let w2 = w1 + "' to '"@;
    let w3 = w2 + to;
    let w4 = w3 + "': both have to be imported nodes."@;
    lemma_occurs_last(w0, from);
    lemma_occurs_on(w1, "' to '"@, from);
    lemma_occurs_on(w2, to, from);
    lemma_occurs_on(w3, "': both have to be imported nodes."@, from);
    lemma_occurs_last(w2, to);
    lemma_occurs_on(w3, "': both have to be imported nodes."@, to);
}

/// A node keeps its place on the canvas where both numbers of it are there.
pub proof fn nodes_keep_their_place(raw: JsonView, at: Seq<JsonView>, x: NumberView, y: NumberView)
    ensures
        raw.get("position"@) == Some(JsonView::Array(at)) && at.len() == 2 && at[0]
            == JsonView::Number(x) && at[1] == JsonView::Number(y) ==> {
            &&& position_of(raw) is Some
            &&& position_of(raw)->0.x == x
            &&& position_of(raw)->0.y == y
        },
        raw.get("position"@) is None ==> position_of(raw) is None,
{
}

} // verus!
