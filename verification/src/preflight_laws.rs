//! What holds of every judgement on a graph's arguments: what an expression reads,
//! which calls are judged, and which nulls are held against the graph.
use vstd::prelude::*;

use crate::json::JsonView;
use crate::model::graph::{EdgeView, GraphView, NodeKind, NodeView};
use crate::nodes::NullResolutionView;
use crate::preflight::{
    addressed, call_slug, complaint, expression_body, first_trigger, is_provider_slug, named_node,
    node_with, opaque_upstream, reads_from, reads_items, reads_trigger, run_complaints, sources_of,
    step_complaints, ObservedStepView,
};
use crate::text::{is_white, lemma_occurs_last, lemma_occurs_on, occurs_in, trim_front, trimmed};
use crate::text_laws::{prefixes_are_taken_off_once, texts_are_read_up_to_a_stop};

verus! {

/// An expression reads from a root where it is that root, or goes on from it by a
/// dot or a bracket; a longer word is another root.
pub proof fn roots_end_at_a_dot_or_a_bracket(root: Seq<char>, rest: Seq<char>)
    ensures
        reads_from(root + rest, root) <==> rest.len() == 0 || rest[0] == '.' || rest[0] == '[',
{
    let body = root + rest;
    assert(body.subrange(0, root.len() as int) =~= root);
    if rest.len() > 0 {
        assert(body[root.len() as int] == rest[0]);
    }
}

proof fn lemma_dotted(rest: Seq<char>)
    ensures
        "nodes"@.is_prefix_of(rest) ==> !"."@.is_prefix_of(rest),
{
    reveal_strlit(".");
    reveal_strlit("nodes");
    if "nodes"@.is_prefix_of(rest) && "."@.is_prefix_of(rest) {
        assert(rest.subrange(0, "."@.len() as int)[0] == rest[0]);
        assert(rest.subrange(0, "nodes"@.len() as int)[0] == rest[0]);
        assert("."@[0] == '.');
        assert("nodes"@[0] == 'n');
    }
}

proof fn lemma_addressed(id: Seq<char>, rest: Seq<char>)
    requires
        forall|i: int| 0 <= i < id.len() ==> (#[trigger] id[i]) != '.' && id[i] != '[',
        rest.len() == 0 || rest[0] == '.' || rest[0] == '[',
    ensures
        addressed("."@ + (id + rest)) == id,
{
    let tail = id + rest;
    prefixes_are_taken_off_once("."@, tail, tail);
    let stops = seq!['.', '['];
    assert(stops[0] == '.' && stops[1] == '[');
    if rest.len() > 0 {
        assert(rest =~= seq![rest[0]] + rest.drop_first());
        texts_are_read_up_to_a_stop(id, rest[0], rest.drop_first(), stops);
    } else {
        assert(tail =~= id);
        texts_are_read_up_to_a_stop(id, '.', rest, stops);
    }
}

proof fn lemma_named(bare: Seq<char>, path: Seq<char>)
    requires
        trimmed(bare) == bare,
        bare == "nodes"@ + path || bare == "."@ + ("nodes"@ + path),
        addressed(path).len() > 0,
    ensures
        named_node("="@ + bare) == Some(addressed(path)),
{
    let body = "nodes"@ + path;
    prefixes_are_taken_off_once("="@, bare, bare);
    prefixes_are_taken_off_once("nodes"@, path, body);
    assert(body.subrange(0, "nodes"@.len() as int) =~= "nodes"@);
    lemma_dotted(body);
    prefixes_are_taken_off_once("."@, body, body);
}

/// `=nodes.<id>…` and `=.nodes.<id>…` name the node of that id.
pub proof fn dotted_expressions_name_their_node(id: Seq<char>, rest: Seq<char>)
    requires
        id.len() > 0,
        forall|i: int| 0 <= i < id.len() ==> (#[trigger] id[i]) != '.' && id[i] != '[',
        rest.len() == 0 || rest[0] == '.' || rest[0] == '[',
    ensures
        ({
            let body = "nodes"@ + ("."@ + (id + rest));
            &&& trimmed(body) == body ==> named_node("="@ + body) == Some(id)
            &&& trimmed("."@ + body) == "."@ + body ==> named_node("="@ + ("."@ + body)) == Some(
                id,
            )
        }),
{
    let path = "."@ + (id + rest);
    let body = "nodes"@ + path;
    lemma_addressed(id, rest);
    if trimmed(body) == body {
        lemma_named(body, path);
    }
    if trimmed("."@ + body) == "."@ + body {
        lemma_named("."@ + body, path);
    }
}

/// Where an expression is not written behind `=`, it names nothing.
pub proof fn literals_name_no_node(expr: Seq<char>)
    requires
        !"="@.is_prefix_of(expr),
    ensures
        named_node(expr) is None,
{
}

/// The sources of a node are the starts of the edges into it, edge by edge.
pub proof fn sources_are_the_starts_of_edges(edges: Seq<EdgeView>, more: EdgeView, node: Seq<char>)
    ensures
        more.to_node == node ==> sources_of(edges.push(more), node) == sources_of(edges, node).push(
            more.from_node,
        ),
        more.to_node != node ==> sources_of(edges.push(more), node) == sources_of(edges, node),
        sources_of(Seq::empty(), node).len() == 0,
{
    assert(edges.push(more).drop_last() =~= edges);
}

/// The trigger of a graph is the first one among its nodes.
pub proof fn the_first_trigger_counts(nodes: Seq<NodeView>, i: int)
    requires
        0 <= i < nodes.len(),
        nodes[i].kind == NodeKind::Trigger,
        forall|k: int| 0 <= k < i ==> (#[trigger] nodes[k]).kind != NodeKind::Trigger,
    ensures
        first_trigger(nodes) == Some(nodes[i].id),
    decreases i,
{
    if i > 0 {
        let rest = nodes.drop_first();
        assert(rest[i - 1] == nodes[i]);
        assert forall|k: int| 0 <= k < i - 1 implies (#[trigger] rest[k]).kind
            != NodeKind::Trigger by {
            assert(rest[k] == nodes[k + 1]);
        }
        assert(nodes[0].kind != NodeKind::Trigger);
        the_first_trigger_counts(rest, i - 1);
    }
}

proof fn lemma_found(nodes: Seq<NodeView>, i: int)
    requires
        0 <= i < nodes.len(),
        forall|k: int| 0 <= k < i ==> (#[trigger] nodes[k]).id != nodes[i].id,
    ensures
        node_with(nodes, nodes[i].id) == Some(nodes[i]),
    decreases i,
{
    if i > 0 {
        let rest = nodes.drop_first();
        assert(rest[i - 1] == nodes[i]);
        assert forall|k: int| 0 <= k < i - 1 implies (#[trigger] rest[k]).id != rest[i - 1].id by {
            assert(rest[k] == nodes[k + 1]);
        }
        assert(nodes[0].id != nodes[i].id);
        lemma_found(rest, i - 1);
    }
}

/// What reads the run reads the trigger, and so does what names the trigger; what
/// names another node does not, whatever flows into it.
pub proof fn the_trigger_is_read_by_run_or_by_name(
    expr: Seq<char>,
    edges: Seq<EdgeView>,
    node: Seq<char>,
    trigger: Seq<char>,
    other: Seq<char>,
)
    ensures
        reads_from(expression_body(expr), "run"@) ==> reads_trigger(
            expr,
            edges,
            node,
            Some(trigger),
        ),
        named_node(expr) == Some(trigger) ==> reads_trigger(expr, edges, node, Some(trigger)),
        named_node(expr) == Some(other) && other != trigger && !reads_from(
            expression_body(expr),
            "run"@,
        ) ==> !reads_trigger(expr, edges, node, Some(trigger)),
{
}

proof fn lemma_sources_in(edges: Seq<EdgeView>, node: Seq<char>, e: int)
    requires
        0 <= e < edges.len(),
        edges[e].to_node == node,
    ensures
        sources_of(edges, node).contains(edges[e].from_node),
    decreases edges.len(),
{
    let less = edges.drop_last();
    let rest = sources_of(less, node);
    let all = sources_of(edges, node);
    if e == edges.len() - 1 {
        assert(all[rest.len() as int] == edges[e].from_node);
    } else {
        assert(less[e] == edges[e]);
        lemma_sources_in(less, node, e);
        let k = choose|k: int| 0 <= k < rest.len() && rest[k] == edges[e].from_node;
        assert(all[k] == edges[e].from_node);
    }
}

proof fn lemma_sources_from(edges: Seq<EdgeView>, node: Seq<char>, k: int) -> (e: int)
    requires
        0 <= k < sources_of(edges, node).len(),
    ensures
        0 <= e < edges.len(),
        edges[e].to_node == node,
        edges[e].from_node == sources_of(edges, node)[k],
    decreases edges.len(),
{
    let less = edges.drop_last();
    let rest = sources_of(less, node);
    if k < rest.len() {
        let e = lemma_sources_from(less, node, k);
        assert(less[e] == edges[e]);
        e
    } else {
        edges.len() - 1
    }
}

/// The items of a node are the trigger's exactly where an edge leads into it, and
/// every such edge comes from the trigger.
pub proof fn items_are_the_triggers_where_all_edges_are(
    expr: Seq<char>,
    edges: Seq<EdgeView>,
    node: Seq<char>,
    trigger: Seq<char>,
    e: int,
    stray: int,
)
    requires
        !reads_from(expression_body(expr), "run"@),
        named_node(expr) is None,
        reads_items(expression_body(expr)),
    ensures
        0 <= e < edges.len() && edges[e].to_node == node && (forall|k: int|
            0 <= k < edges.len() && (#[trigger] edges[k]).to_node == node ==> edges[k].from_node
                == trigger) ==> reads_trigger(expr, edges, node, Some(trigger)),
        0 <= stray < edges.len() && edges[stray].to_node == node && edges[stray].from_node
            != trigger ==> !reads_trigger(expr, edges, node, Some(trigger)),
        (forall|k: int| 0 <= k < edges.len() ==> (#[trigger] edges[k]).to_node != node)
            ==> !reads_trigger(expr, edges, node, Some(trigger)),
        !reads_trigger(expr, edges, node, None),
{
    let from = sources_of(edges, node);
    if 0 <= e < edges.len() && edges[e].to_node == node && (forall|k: int|
        0 <= k < edges.len() && (#[trigger] edges[k]).to_node == node ==> edges[k].from_node
            == trigger) {
        lemma_sources_in(edges, node, e);
        assert forall|k: int| 0 <= k < from.len() implies from[k] == trigger by {
            let at = lemma_sources_from(edges, node, k);
            assert(edges[at].to_node == node);
        }
    }
    if 0 <= stray < edges.len() && edges[stray].to_node == node && edges[stray].from_node
        != trigger {
        lemma_sources_in(edges, node, stray);
        let k = choose|k: int| 0 <= k < from.len() && from[k] == edges[stray].from_node;
        assert(from[k] != trigger);
    }
    if (forall|k: int| 0 <= k < edges.len() ==> (#[trigger] edges[k]).to_node != node)
        && from.len() > 0 {
        let at = lemma_sources_from(edges, node, 0);
        assert(edges[at].to_node == node);
    }
}

/// A null that a tool call upstream is to blame for proves nothing: the call has a
/// slug that is no expression, and the null names its node, or reads the items of
/// a node that it alone feeds.
pub proof fn stand_ins_explain_nulls(
    expr: Seq<char>,
    graph: GraphView,
    node: Seq<char>,
    i: int,
    slug: Seq<char>,
)
    requires
        0 <= i < graph.nodes.len(),
        forall|k: int| 0 <= k < i ==> (#[trigger] graph.nodes[k]).id != graph.nodes[i].id,
        named_node(expr) == Some(graph.nodes[i].id) || (named_node(expr) is None && reads_items(
            expression_body(expr),
        ) && sources_of(graph.edges, node) == seq![graph.nodes[i].id]),
    ensures
        graph.nodes[i].kind == NodeKind::ToolCall && graph.nodes[i].config.get("slug"@) == Some(
            JsonView::String(slug),
        ) && !"="@.is_prefix_of(slug) ==> opaque_upstream(expr, graph, node) == Some(
            graph.nodes[i].id,
        ),
        graph.nodes[i].kind != NodeKind::ToolCall ==> opaque_upstream(expr, graph, node) is None,
        graph.nodes[i].config.get("slug"@) is None ==> opaque_upstream(expr, graph, node) is None,
        graph.nodes[i].config.get("slug"@) == Some(JsonView::String(slug)) && "="@.is_prefix_of(
            slug,
        ) ==> opaque_upstream(expr, graph, node) is None,
{
    lemma_found(graph.nodes, i);
    if named_node(expr) is None {
        assert(sources_of(graph.edges, node)[0] == graph.nodes[i].id);
    }
}

/// A null is held against the graph exactly where it is an argument of the call,
/// does not read the trigger, and no stand-in explains it; and then it is told with
/// the node, the argument, the tool and the expression.
pub proof fn unexplained_nulls_are_told(
    graph: GraphView,
    node: Seq<char>,
    slug: Seq<char>,
    field: Seq<char>,
    expr: Seq<char>,
    elsewhere: Seq<char>,
)
    ensures
        ({
            let diagnostic = NullResolutionView { location: "args."@ + field, expression: expr };
            let told = complaint(graph, node, slug, diagnostic);
            &&& told is Some <==> !reads_trigger(
                expr,
                graph.edges,
                node,
                first_trigger(graph.nodes),
            ) && opaque_upstream(expr, graph, node) is None
            &&& told matches Some(text) ==> occurs_in(text, node) && occurs_in(text, field)
                && occurs_in(text, slug) && occurs_in(text, expr)
        }),
        !"args."@.is_prefix_of(elsewhere) ==> complaint(
            graph,
            node,
            slug,
            NullResolutionView { location: elsewhere, expression: expr },
        ) is None,
{
    prefixes_are_taken_off_once("args."@, field, elsewhere);
    let w0 = "Node '"@;
    let w1 = w0 + node;
    let w2 = w1 + "': arg `"@;
    let w3 = w2 + field;
    let w4 = w3 + "` of `"@;
    let w5 = w4 + slug;
    let w6 = w5 + "` (`"@;
    let w7 = w6 + expr;
    let w8 = w7 + "`) resolved to `null` during a sandboxed test run — an empty/missing `"@;
    let w9 = w8 + field;
    let w10 = w9 + "` can be rejected by the real provider at runtime (e.g. Gmail rejects a send with no subject or body). Rewire it from an upstream node's output that actually has a value — call dry_run_workflow to see exactly which upstream field is null — or drop the field from args if it isn't really needed."@;
    lemma_occurs_last(w0, node);
    lemma_occurs_on(w1, "': arg `"@, node);
    lemma_occurs_on(w2, field, node);
    lemma_occurs_on(w3, "` of `"@, node);
    lemma_occurs_on(w4, slug, node);
    lemma_occurs_on(w5, "` (`"@, node);
    lemma_occurs_on(w6, expr, node);
    lemma_occurs_on(w7, "`) resolved to `null` during a sandboxed test run — an empty/missing `"@, node);
    lemma_occurs_on(w8, field, node);
    lemma_occurs_on(w9, "` can be rejected by the real provider at runtime (e.g. Gmail rejects a send with no subject or body). Rewire it from an upstream node's output that actually has a value — call dry_run_workflow to see exactly which upstream field is null — or drop the field from args if it isn't really needed."@, node);
    lemma_occurs_last(w2, field);
    lemma_occurs_on(w3, "` of `"@, field);
    lemma_occurs_on(w4, slug, field);
    lemma_occurs_on(w5, "` (`"@, field);
    lemma_occurs_on(w6, expr, field);
    lemma_occurs_on(w7, "`) resolved to `null` during a sandboxed test run — an empty/missing `"@, field);
    lemma_occurs_on(w8, field, field);
    lemma_occurs_on(w9, "` can be rejected by the real provider at runtime (e.g. Gmail rejects a send with no subject or body). Rewire it from an upstream node's output that actually has a value — call dry_run_workflow to see exactly which upstream field is null — or drop the field from args if it isn't really needed."@, field);
    lemma_occurs_last(w4, slug);
    lemma_occurs_on(w5, "` (`"@, slug);
    lemma_occurs_on(w6, expr, slug);
    lemma_occurs_on(w7, "`) resolved to `null` during a sandboxed test run — an empty/missing `"@, slug);
    lemma_occurs_on(w8, field, slug);
    lemma_occurs_on(w9, "` can be rejected by the real provider at runtime (e.g. Gmail rejects a send with no subject or body). Rewire it from an upstream node's output that actually has a value — call dry_run_workflow to see exactly which upstream field is null — or drop the field from args if it isn't really needed."@, slug);
    lemma_occurs_last(w6, expr);
    lemma_occurs_on(w7, "`) resolved to `null` during a sandboxed test run — an empty/missing `"@, expr);
    lemma_occurs_on(w8, field, expr);
    lemma_occurs_on(w9, "` can be rejected by the real provider at runtime (e.g. Gmail rejects a send with no subject or body). Rewire it from an upstream node's output that actually has a value — call dry_run_workflow to see exactly which upstream field is null — or drop the field from args if it isn't really needed."@, expr);
}

/// Only a call of a provider's tool is judged: a slug that is an expression, or
/// that begins with `oh:`, is none.
pub proof fn own_tools_are_not_judged(slug: Seq<char>, rest: Seq<char>)
    ensures
        !is_provider_slug("="@ + rest),
        !is_provider_slug("oh:"@ + rest),
        !"="@.is_prefix_of(slug) && !"oh:"@.is_prefix_of(slug) ==> is_provider_slug(slug),
{
    let a = "="@ + rest;
    let b = "oh:"@ + rest;
    assert(a.subrange(0, "="@.len() as int) =~= "="@);
    assert(b.subrange(0, "oh:"@.len() as int) =~= "oh:"@);
}

/// The slug a step is judged by is that of the tool call with its id.
pub proof fn calls_are_judged_by_their_slug(nodes: Seq<NodeView>, i: int, slug: Seq<char>)
    requires
        0 <= i < nodes.len(),
        nodes[i].kind == NodeKind::ToolCall,
        nodes[i].config.get("slug"@) == Some(JsonView::String(slug)),
        forall|k: int| i < k < nodes.len() ==> (#[trigger] nodes[k]).id != nodes[i].id,
    ensures
        call_slug(nodes, nodes[i].id) == Some(slug),
    decreases nodes.len(),
{
    if i < nodes.len() - 1 {
        let less = nodes.drop_last();
        assert(less[i] == nodes[i]);
        assert(nodes[nodes.len() - 1].id != nodes[i].id);
        assert forall|k: int| i < k < less.len() implies (#[trigger] less[k]).id != less[i].id by {
            assert(less[k] == nodes[k]);
        }
        calls_are_judged_by_their_slug(less, i, slug);
    }
}

proof fn lemma_steps_front(
    graph: GraphView,
    steps: Seq<ObservedStepView>,
    more: ObservedStepView,
    n: nat,
)
    requires
        n <= steps.len(),
    ensures
        run_complaints(graph, steps.push(more), n) == run_complaints(graph, steps, n),
    decreases n,
{
    if n > 0 {
        lemma_steps_front(graph, steps, more, (n - 1) as nat);
        assert(steps.push(more)[n - 1] == steps[n - 1]);
    }
}

/// A run is judged step by step, in order: a further step adds what is said of its
/// nulls where it calls a provider's tool, and nothing otherwise.
pub proof fn runs_are_judged_step_by_step(
    graph: GraphView,
    steps: Seq<ObservedStepView>,
    more: ObservedStepView,
    slug: Seq<char>,
)
    ensures
        ({
            let before = run_complaints(graph, steps, steps.len());
            let after = run_complaints(graph, steps.push(more), steps.len() + 1);
            &&& call_slug(graph.nodes, more.node_id) is None ==> after == before
            &&& call_slug(graph.nodes, more.node_id) == Some(slug) && !is_provider_slug(slug)
                ==> after == before
            &&& call_slug(graph.nodes, more.node_id) == Some(slug) && is_provider_slug(slug)
                ==> after == before + step_complaints(
                graph,
                more.node_id,
                slug,
                more.diagnostics,
                more.diagnostics.len(),
            )
            &&& run_complaints(graph, steps, 0).len() == 0
        }),
{
    lemma_steps_front(graph, steps, more, steps.len());
    assert(steps.push(more)[steps.len() as int] == more);
}

/// Every null of a step that is held against the graph is told.
pub proof fn every_unexplained_null_is_told(
    graph: GraphView,
    node: Seq<char>,
    slug: Seq<char>,
    diagnostics: Seq<NullResolutionView>,
    n: nat,
    i: int,
)
    requires
        0 <= i < n <= diagnostics.len(),
        complaint(graph, node, slug, diagnostics[i]) is Some,
    ensures
        step_complaints(graph, node, slug, diagnostics, n).contains(
            complaint(graph, node, slug, diagnostics[i])->0,
        ),
    decreases n,
{
    let rest = step_complaints(graph, node, slug, diagnostics, (n - 1) as nat);
    let all = step_complaints(graph, node, slug, diagnostics, n);
    let text = complaint(graph, node, slug, diagnostics[i])->0;
    if i == n - 1 {
        assert(all[rest.len() as int] == text);
    } else {
        every_unexplained_null_is_told(graph, node, slug, diagnostics, (n - 1) as nat, i);
        let k = choose|k: int| 0 <= k < rest.len() && rest[k] == text;
        assert(all[k] == text);
    }
}

proof fn lemma_bracketed(id: Seq<char>, quote: char, rest: Seq<char>)
    requires
        quote == '"' || quote == '\'',
        forall|i: int|
            0 <= i < id.len() ==> (#[trigger] id[i]) != '"' && id[i] != '\'' && id[i] != ']',
    ensures
        addressed("["@ + (seq![quote] + (id + (seq![quote] + rest)))) == id,
{
    reveal_strlit(".");
    reveal_strlit("[");
    reveal_strlit("\"");
    reveal_strlit("'");
    let tail = id + (seq![quote] + rest);
    let inner = seq![quote] + tail;
    let whole = "["@ + inner;
    assert(whole[0] == '[');
    assert("."@[0] == '.');
    if "."@.is_prefix_of(whole) {
        assert(whole.subrange(0, "."@.len() as int)[0] == whole[0]);
    }
    prefixes_are_taken_off_once("."@, whole, whole);
    prefixes_are_taken_off_once("["@, inner, inner);
    assert(inner[0] == quote);
    assert(!is_white(quote));
    assert(trim_front(inner) == inner);
    if quote == '"' {
        assert("\""@ =~= seq![quote]);
        prefixes_are_taken_off_once("\""@, tail, tail);
    } else {
        assert("'"@ =~= seq![quote]);
        assert("\""@[0] == '"');
        if "\""@.is_prefix_of(inner) {
            assert(inner.subrange(0, "\""@.len() as int)[0] == inner[0]);
        }
        prefixes_are_taken_off_once("\""@, inner, inner);
        prefixes_are_taken_off_once("'"@, tail, tail);
    }
    let stops = seq!['"', '\'', ']'];
    assert(stops[0] == '"' && stops[1] == '\'' && stops[2] == ']');
    texts_are_read_up_to_a_stop(id, quote, rest, stops);
}

/// `=nodes["<id>"]…` and `=nodes['<id>']…` name the node of that id.
pub proof fn quoted_expressions_name_their_node(id: Seq<char>, quote: char, rest: Seq<char>)
    requires
        id.len() > 0,
        quote == '"' || quote == '\'',
        forall|i: int|
            0 <= i < id.len() ==> (#[trigger] id[i]) != '"' && id[i] != '\'' && id[i] != ']',
    ensures
        ({
            let body = "nodes"@ + ("["@ + (seq![quote] + (id + (seq![quote] + rest))));
            trimmed(body) == body ==> named_node("="@ + body) == Some(id)
        }),
{
    let path = "["@ + (seq![quote] + (id + (seq![quote] + rest)));
    let body = "nodes"@ + path;
    lemma_bracketed(id, quote, rest);
    if trimmed(body) == body {
        lemma_named(body, path);
    }
}

} // verus!
