//! Which arguments of a graph's tool calls can never resolve, judged by what a
//! sandboxed run of the graph observed.
//!
//! The run itself is the host's: it executes the graph against stand-ins on an
//! empty trigger payload, and hands over, for each step, the config
//! expressions that resolved to `null`. An argument that reads the trigger is
//! empty there and filled in a real run; one that reads a tool's output cannot
//! be judged against a stand-in. What is left is wired to an upstream node
//! that never gives the value.
use vstd::prelude::*;

use crate::model::graph::{Edge, EdgeView, GraphView, Node, NodeKind, NodeView, WorkflowGraph};
use crate::nodes::{NullResolution, NullResolutionView};
use crate::text::{
    after_prefix, before_any, chars_of, opt_str, opt_view, same, skip_front, strip_front, trim,
    trim_front, trim_start, trimmed, until_any, views, without_prefix,
};

verus! {

/// What a run observed of one step.
#[derive(Debug, PartialEq, Eq)]
pub struct ObservedStep {
    pub node_id: String,
    pub diagnostics: Vec<NullResolution>,
}

#[verifier::ext_equal]
pub struct ObservedStepView {
    pub node_id: Seq<char>,
    pub diagnostics: Seq<NullResolutionView>,
}

impl View for ObservedStep {
    type V = ObservedStepView;

    open spec fn view(&self) -> ObservedStepView {
        ObservedStepView { node_id: self.node_id@, diagnostics: views(self.diagnostics@) }
    }
}

/// The body of an expression: without the leading `=`, the white space around
/// it and the leading `.`.
pub open spec fn expression_body(expr: Seq<char>) -> Seq<char> {
    without_prefix(trimmed(without_prefix(expr, "="@)), "."@)
}

fn body_of(expr: &str) -> (r: String)
    ensures
        r@ == expression_body(expr@),
{
    let bare = skip_front(expr, "=");
    let inner = trim(bare.as_str());
    skip_front(inner.as_str(), ".")
}

/// The node a text after the `nodes` root addresses: by the dotted form, or by
/// the bracket form with or without quotes.
pub open spec fn addressed(rest: Seq<char>) -> Seq<char> {
    match after_prefix(rest, "."@) {
        Some(dotted) => before_any(dotted, seq!['.', '[']),
        None => match after_prefix(rest, "["@) {
            Some(bracketed) => {
                let inner = trim_front(bracketed);
                let bare = match after_prefix(inner, "\""@) {
                    Some(quoted) => quoted,
                    None => without_prefix(inner, "'"@),
                };
                before_any(bare, seq!['"', '\'', ']'])
            },
            None => Seq::empty(),
        },
    }
}

/// The node an expression names through the `nodes` root.
pub open spec fn named_node(expr: Seq<char>) -> Option<Seq<char>> {
    match after_prefix(expr, "="@) {
        Some(bare) => match after_prefix(without_prefix(trimmed(bare), "."@), "nodes"@) {
            Some(rest) => if addressed(rest).len() > 0 {
                Some(addressed(rest))
            } else {
                None
            },
            None => None,
        },
        None => None,
    }
}

fn address(rest: &str) -> (r: String)
    ensures
        r@ == addressed(rest@),
{
    match strip_front(rest, ".") {
        Some(dotted) => {
            let stops = ['.', '['];
            assert(stops@ =~= seq!['.', '[']);
            until_any(dotted.as_str(), &stops)
        },
        None => match strip_front(rest, "[") {
            Some(bracketed) => {
                let inner = trim_start(bracketed.as_str());
                let bare = match strip_front(inner.as_str(), "\"") {
                    Some(quoted) => quoted,
                    None => skip_front(inner.as_str(), "'"),
                };
                let stops = ['"', '\'', ']'];
                assert(stops@ =~= seq!['"', '\'', ']']);
                until_any(bare.as_str(), &stops)
            },
            None => String::new(),
        },
    }
}

/// The node an expression names through the `nodes` root: `=nodes.<id>…`,
/// `=.nodes["<id>"]…`.
pub fn explicit_nodes_ref(expr: &str) -> (r: Option<String>)
    ensures
        opt_view(r) == named_node(expr@),
{
    let bare = match strip_front(expr, "=") {
        Some(bare) => bare,
        None => {
            return None;
        },
    };
    let inner = trim(bare.as_str());
    let body = skip_front(inner.as_str(), ".");
    match strip_front(body.as_str(), "nodes") {
        Some(rest) => {
            let id = address(rest.as_str());
            if id.as_str().is_empty() {
                None
            } else {
                Some(id)
            }
        },
        None => None,
    }
}

/// A body reads from a root: it is the root, or goes on from it by `.` or `[`.
pub open spec fn reads_from(body: Seq<char>, root: Seq<char>) -> bool {
    &&& root.is_prefix_of(body)
    &&& body.len() > root.len() ==> body[root.len() as int] == '.' || body[root.len() as int] == '['
}

fn reads(body: &str, root: &str) -> (r: bool)
    ensures
        r == reads_from(body@, root@),
{
    match strip_front(body, root) {
        Some(rest) => {
            let chars = chars_of(rest.as_str());
            chars.len() == 0 || chars[0] == '.' || chars[0] == '['
        },
        None => false,
    }
}

/// A body reads the items that flow into its node.
pub open spec fn reads_items(body: Seq<char>) -> bool {
    reads_from(body, "item"@) || reads_from(body, "items"@)
}

/// The nodes with an edge into `node`, edge by edge.
pub open spec fn sources_of(edges: Seq<EdgeView>, node: Seq<char>) -> Seq<Seq<char>>
    decreases edges.len(),
{
    if edges.len() == 0 {
        Seq::empty()
    } else {
        let rest = sources_of(edges.drop_last(), node);
        if edges.last().to_node == node {
            rest.push(edges.last().from_node)
        } else {
            rest
        }
    }
}

fn sources(edges: &Vec<Edge>, node: &str) -> (r: Vec<String>)
    ensures
        views(r@) == sources_of(views(edges@), node@),
{
    let ghost all = views(edges@);
    let mut found: Vec<String> = Vec::new();
    let mut i: usize = 0;
    assert(views(found@) =~= sources_of(all.take(0), node@));
    while i < edges.len()
        invariant
            i <= edges.len(),
            all == views(edges@),
            views(found@) == sources_of(all.take(i as int), node@),
        decreases edges.len() - i,
    {
        assert(all.take(i + 1).drop_last() =~= all.take(i as int));
        assert(all.take(i + 1).last() == edges@[i as int]@);
        let ghost before = views(found@);
        if same(edges[i].to_node.as_str(), node) {
            found.push(edges[i].from_node.clone());
            assert(views(found@) =~= before.push(edges@[i as int]@.from_node));
        }
        i = i + 1;
    }
    assert(all.take(all.len() as int) =~= all);
    found
}

/// Something flows into `node`, and all of it comes from `source`.
pub open spec fn fed_only_by(edges: Seq<EdgeView>, node: Seq<char>, source: Seq<char>) -> bool {
    let from = sources_of(edges, node);
    &&& from.len() > 0
    &&& forall|i: int| 0 <= i < from.len() ==> from[i] == source
}

fn all_are(texts: &Vec<String>, text: &str) -> (r: bool)
    ensures
        r == (texts@.len() > 0 && forall|i: int|
            0 <= i < texts@.len() ==> (#[trigger] views(texts@)[i]) == text@),
{
    let mut i: usize = 0;
    while i < texts.len()
        invariant
            i <= texts.len(),
            forall|k: int| 0 <= k < i ==> (#[trigger] views(texts@)[k]) == text@,
        decreases texts.len() - i,
    {
        assert(views(texts@)[i as int] == texts@[i as int]@);
        if !same(texts[i].as_str(), text) {
            return false;
        }
        i = i + 1;
    }
    texts.len() > 0
}

/// The id of the first trigger.
pub open spec fn first_trigger(nodes: Seq<NodeView>) -> Option<Seq<char>>
    decreases nodes.len(),
{
    if nodes.len() == 0 {
        None
    } else if nodes[0].kind == NodeKind::Trigger {
        Some(nodes[0].id)
    } else {
        first_trigger(nodes.drop_first())
    }
}

fn trigger_of(nodes: &Vec<Node>) -> (r: Option<&str>)
    ensures
        match r {
            Some(id) => first_trigger(views(nodes@)) == Some(id@),
            None => first_trigger(views(nodes@)) is None,
        },
{
    let ghost all = views(nodes@);
    let mut i: usize = 0;
    assert(all.skip(0) =~= all);
    while i < nodes.len()
        invariant
            i <= nodes.len(),
            all == views(nodes@),
            first_trigger(all) == first_trigger(all.skip(i as int)),
        decreases nodes.len() - i,
    {
        assert(all.skip(i as int)[0] == nodes@[i as int]@);
        if nodes[i].kind == NodeKind::Trigger {
            return Some(nodes[i].id.as_str());
        }
        assert(all.skip(i as int).drop_first() =~= all.skip(i + 1));
        i = i + 1;
    }
    assert(all.skip(i as int) =~= Seq::empty());
    None
}

/// An expression of `node` reads the trigger: its payload through the `run`
/// root, the trigger by name, or items that come from the trigger alone.
pub open spec fn reads_trigger(
    expr: Seq<char>,
    edges: Seq<EdgeView>,
    node: Seq<char>,
    trigger: Option<Seq<char>>,
) -> bool {
    if reads_from(expression_body(expr), "run"@) {
        true
    } else if named_node(expr) is Some {
        trigger == named_node(expr)
    } else {
        &&& reads_items(expression_body(expr))
        &&& trigger is Some
        &&& fed_only_by(edges, node, trigger->0)
    }
}

/// Whether an expression that resolved to `null` reads the trigger, and so is
/// empty only because the sandbox's trigger is.
pub fn is_trigger_scoped_expression(
    expr: &str,
    graph: &WorkflowGraph,
    node_id: &str,
    trigger_id: Option<&str>,
) -> (r: bool)
    ensures
        r == reads_trigger(
            expr@,
            graph@.edges,
            node_id@,
            opt_str(trigger_id),
        ),
{
    let body = body_of(expr);
    if reads(body.as_str(), "run") {
        return true;
    }
    match explicit_nodes_ref(expr) {
        Some(named) => {
            return match trigger_id {
                Some(trigger) => same(named.as_str(), trigger),
                None => false,
            };
        },
        None => {},
    }
    if !(reads(body.as_str(), "item") || reads(body.as_str(), "items")) {
        return false;
    }
    let trigger = match trigger_id {
        Some(trigger) => trigger,
        None => {
            return false;
        },
    };
    let from = sources(&graph.edges, node_id);
    all_are(&from, trigger)
}

/// The node whose output an expression of `node` reads: the one it names, or
/// the only one that flows into `node`.
pub open spec fn upstream_of(
    expr: Seq<char>,
    edges: Seq<EdgeView>,
    node: Seq<char>,
) -> Option<Seq<char>> {
    if named_node(expr) is Some {
        named_node(expr)
    } else if reads_items(expression_body(expr)) && sources_of(edges, node).len() == 1 {
        Some(sources_of(edges, node)[0])
    } else {
        None
    }
}

/// The first node with the id.
pub open spec fn node_with(nodes: Seq<NodeView>, id: Seq<char>) -> Option<NodeView>
    decreases nodes.len(),
{
    if nodes.len() == 0 {
        None
    } else if nodes[0].id == id {
        Some(nodes[0])
    } else {
        node_with(nodes.drop_first(), id)
    }
}

/// The slug of a tool call, where the node is one and its slug is a text.
pub open spec fn slug_of(node: NodeView) -> Option<Seq<char>> {
    if node.kind == NodeKind::ToolCall {
        node.config.text_at("slug"@)
    } else {
        None
    }
}

/// The upstream node is a tool call with a fixed slug, whose output a
/// stand-in cannot give.
pub open spec fn opaque_upstream(
    expr: Seq<char>,
    graph: GraphView,
    node: Seq<char>,
) -> Option<Seq<char>> {
    match upstream_of(expr, graph.edges, node) {
        Some(id) => match node_with(graph.nodes, id) {
            Some(upstream) => match slug_of(upstream) {
                Some(slug) => if "="@.is_prefix_of(slug) {
                    None
                } else {
                    Some(upstream.id)
                },
                None => None,
            },
            None => None,
        },
        None => None,
    }
}

proof fn lemma_node_with(nodes: Seq<NodeView>, id: Seq<char>, n: int)
    requires
        0 <= n <= nodes.len(),
        forall|k: int| 0 <= k < n ==> (#[trigger] nodes[k]).id != id,
    ensures
        node_with(nodes, id) == node_with(nodes.skip(n), id),
    decreases n,
{
    if n == 0 {
        assert(nodes.skip(0) =~= nodes);
    } else {
        let rest = nodes.drop_first();
        assert forall|k: int| 0 <= k < n - 1 implies (#[trigger] rest[k]).id != id by {
            assert(rest[k] == nodes[k + 1]);
        }
        lemma_node_with(rest, id, n - 1);
        assert(rest.skip(n - 1) =~= nodes.skip(n));
    }
}

/// The id of the upstream tool call an expression reads, where a sandboxed run
/// cannot give its output, so that a `null` there proves nothing.
pub fn mock_opaque_tool_call_upstream_ref<'a>(
    expr: &str,
    graph: &'a WorkflowGraph,
    node_id: &str,
) -> (r: Option<&'a str>)
    ensures
        opt_str(r) == opaque_upstream(expr@, graph@, node_id@),
{
    let id: String = match explicit_nodes_ref(expr) {
        Some(named) => named,
        None => {
            let body = body_of(expr);
            if !(reads(body.as_str(), "item") || reads(body.as_str(), "items")) {
                return None;
            }
            let from = sources(&graph.edges, node_id);
            if from.len() != 1 {
                return None;
            }
            assert(views(from@)[0] == from@[0]@);
            from[0].clone()
        },
    };
    match graph.node_index(id.as_str()) {
        Some(i) => {
            let node = &graph.nodes[i];
            proof {
                lemma_node_with(graph@.nodes, id@, i as int);
                assert(graph@.nodes.skip(i as int)[0] == node@);
            }
            if node.kind != NodeKind::ToolCall {
                return None;
            }
            match node.config.text_at("slug") {
                Some(slug) => if strip_front(slug, "=").is_some() {
                    None
                } else {
                    Some(node.id.as_str())
                },
                None => None,
            }
        },
        None => {
            proof {
                assert forall|k: int| 0 <= k < graph@.nodes.len() implies (
                #[trigger] graph@.nodes[k]).id != id@ by {}
                lemma_node_with(graph@.nodes, id@, graph@.nodes.len() as int);
            }
            None
        },
    }
}

/// The slug of the tool call with the id; the last one where several share it.
pub open spec fn call_slug(nodes: Seq<NodeView>, id: Seq<char>) -> Option<Seq<char>>
    decreases nodes.len(),
{
    if nodes.len() == 0 {
        None
    } else if nodes.last().id == id && slug_of(nodes.last()) is Some {
        slug_of(nodes.last())
    } else {
        call_slug(nodes.drop_last(), id)
    }
}

fn find_slug<'a>(nodes: &'a Vec<Node>, id: &str) -> (r: Option<&'a str>)
    ensures
        opt_str(r) == call_slug(views(nodes@), id@),
{
    let ghost all = views(nodes@);
    let mut n: usize = nodes.len();
    assert(all.take(n as int) =~= all);
    while n > 0
        invariant
            n <= nodes.len(),
            all == views(nodes@),
            call_slug(all, id@) == call_slug(all.take(n as int), id@),
        decreases n,
    {
        let node = &nodes[n - 1];
        assert(all.take(n as int).last() == node@);
        assert(all.take(n as int).drop_last() =~= all.take(n - 1));
        if same(node.id.as_str(), id) && node.kind == NodeKind::ToolCall {
            match node.config.text_at("slug") {
                Some(slug) => {
                    return Some(slug);
                },
                None => {},
            }
        }
        n = n - 1;
    }
    None
}

/// The slug is fixed and an outside provider answers it.
pub open spec fn is_provider_slug(slug: Seq<char>) -> bool {
    !"="@.is_prefix_of(slug) && !"oh:"@.is_prefix_of(slug)
}

/// What is said of an argument that can never resolve.
pub open spec fn unresolved_text(
    node: Seq<char>,
    field: Seq<char>,
    slug: Seq<char>,
    expr: Seq<char>,
) -> Seq<char> {
    "Node '"@ + node + "': arg `"@ + field + "` of `"@ + slug + "` (`"@ + expr
        + "`) resolved to `null` during a sandboxed test run — an empty/missing `"@ + field
        + "` can be rejected by the real provider at runtime (e.g. Gmail rejects a send with no subject or body). Rewire it from an upstream node's output that actually has a value — call dry_run_workflow to see exactly which upstream field is null — or drop the field from args if it isn't really needed."@
}

/// What is said of one `null`: nothing where it is no argument, reads the
/// trigger, or reads an output the sandbox cannot give.
pub open spec fn complaint(
    graph: GraphView,
    node: Seq<char>,
    slug: Seq<char>,
    diagnostic: NullResolutionView,
) -> Option<Seq<char>> {
    match after_prefix(diagnostic.location, "args."@) {
        Some(field) => if reads_trigger(
            diagnostic.expression,
            graph.edges,
            node,
            first_trigger(graph.nodes),
        ) || opaque_upstream(diagnostic.expression, graph, node) is Some {
            None
        } else {
            Some(unresolved_text(node, field, slug, diagnostic.expression))
        },
        None => None,
    }
}

/// What is said of the first `n` diagnostics of a step.
pub open spec fn step_complaints(
    graph: GraphView,
    node: Seq<char>,
    slug: Seq<char>,
    diagnostics: Seq<NullResolutionView>,
    n: nat,
) -> Seq<Seq<char>>
    decreases n,
{
    if n == 0 {
        Seq::empty()
    } else {
        let rest = step_complaints(graph, node, slug, diagnostics, (n - 1) as nat);
        match complaint(graph, node, slug, diagnostics[n - 1]) {
            Some(text) => rest.push(text),
            None => rest,
        }
    }
}

/// What is said of the first `n` steps: only a provider's tool call is judged.
pub open spec fn run_complaints(graph: GraphView, steps: Seq<ObservedStepView>, n: nat) -> Seq<
    Seq<char>,
>
    decreases n,
{
    if n == 0 {
        Seq::empty()
    } else {
        let rest = run_complaints(graph, steps, (n - 1) as nat);
        let step = steps[n - 1];
        match call_slug(graph.nodes, step.node_id) {
            Some(slug) => if is_provider_slug(slug) {
                rest + step_complaints(
                    graph,
                    step.node_id,
                    slug,
                    step.diagnostics,
                    step.diagnostics.len(),
                )
            } else {
                rest
            },
            None => rest,
        }
    }
}

fn complain(
    graph: &WorkflowGraph,
    trigger: Option<&str>,
    node: &str,
    slug: &str,
    diagnostic: &NullResolution,
) -> (r: Option<String>)
    requires
        opt_str(trigger) == first_trigger(graph@.nodes),
    ensures
        opt_view(r) == complaint(graph@, node@, slug@, diagnostic@),
{
    let field = match strip_front(diagnostic.location.as_str(), "args.") {
        Some(field) => field,
        None => {
            return None;
        },
    };
    let expr = diagnostic.expression.as_str();
    if is_trigger_scoped_expression(expr, graph, node, trigger) {
        return None;
    }
    if mock_opaque_tool_call_upstream_ref(expr, graph, node).is_some() {
        return None;
    }
    let mut text = "Node '".to_owned();
    text.append(node);
    text.append("': arg `");
    text.append(field.as_str());
    text.append("` of `");
    text.append(slug);
    text.append("` (`");
    text.append(expr);
    text.append(
        "`) resolved to `null` during a sandboxed test run — an empty/missing `",
    );
    text.append(field.as_str());
    text.append(
        "` can be rejected by the real provider at runtime (e.g. Gmail rejects a send with no subject or body). Rewire it from an upstream node's output that actually has a value — call dry_run_workflow to see exactly which upstream field is null — or drop the field from args if it isn't really needed.",
    );
    Some(text)
}

fn judge_steps(graph: &WorkflowGraph, steps: &[ObservedStep]) -> (errors: Vec<String>)
    ensures
        views(errors@) == run_complaints(graph@, views(steps@), steps@.len()),
{
    let trigger = trigger_of(&graph.nodes);
    let ghost all = views(steps@);
    let mut errors: Vec<String> = Vec::new();
    let mut i: usize = 0;
    assert(views(errors@) =~= run_complaints(graph@, all, 0));
    while i < steps.len()
        invariant
            i <= steps.len(),
            all == views(steps@),
            opt_str(trigger) == first_trigger(graph@.nodes),
            views(errors@) == run_complaints(graph@, all, i as nat),
        decreases steps.len() - i,
    {
        let step = &steps[i];
        assert(all[i as int] == step@);
        match find_slug(&graph.nodes, step.node_id.as_str()) {
            Some(slug) => {
                if strip_front(slug, "=").is_none() && strip_front(slug, "oh:").is_none() {
                    let ghost before = views(errors@);
                    let mut j: usize = 0;
                    assert(views(errors@) =~= before + step_complaints(
                        graph@,
                        step@.node_id,
                        slug@,
                        step@.diagnostics,
                        0,
                    ));
                    while j < step.diagnostics.len()
                        invariant
                            j <= step.diagnostics.len(),
                            opt_str(trigger) == first_trigger(graph@.nodes),
                            views(errors@) == before + step_complaints(
                                graph@,
                                step@.node_id,
                                slug@,
                                step@.diagnostics,
                                j as nat,
                            ),
                        decreases step.diagnostics.len() - j,
                    {
                        assert(step@.diagnostics[j as int] == step.diagnostics@[j as int]@);
                        let ghost so_far = views(errors@);
                        match complain(
                            graph,
                            trigger,
                            step.node_id.as_str(),
                            slug,
                            &step.diagnostics[j],
                        ) {
                            Some(text) => {
                                errors.push(text);
                                assert(views(errors@) =~= so_far.push(text@));
                            },
                            None => {},
                        }
                        j = j + 1;
                        assert(views(errors@) =~= before + step_complaints(
                            graph@,
                            step@.node_id,
                            slug@,
                            step@.diagnostics,
                            j as nat,
                        ));
                    }
                }
            },
            None => {},
        }
        i = i + 1;
    }
    errors
}

/// What is said of a graph: what a run that settled observed, and nothing where
/// the graph did not compile, or its run failed or ran out of time.
pub open spec fn verdict(graph: GraphView, run: Option<Seq<ObservedStepView>>) -> Seq<Seq<char>> {
    match run {
        Some(steps) => run_complaints(graph, steps, steps.len()),
        None => Seq::empty(),
    }
}

/// One message for each argument of a provider's tool call that resolved to
/// `null` in a run that settled, and cannot be explained by the sandbox. `run`
/// is what that run observed; there is none where the graph did not compile, or
/// its run failed or ran out of time, and then there is no message.
pub fn validate_required_arg_resolvability(
    graph: &WorkflowGraph,
    run: Option<&[ObservedStep]>,
) -> (r: Vec<String>)
    ensures
        match run {
            None => r@.len() == 0,
            Some(steps) => views(r@) == run_complaints(graph@, views(steps@), steps@.len()),
        },
{
    match run {
        Some(steps) => judge_steps(graph, steps),
        None => Vec::new(),
    }
}

/// How a sandboxed run of a graph ended.
#[derive(Debug, PartialEq, Eq)]
pub enum SandboxRun {
    /// The graph did not compile.
    NotCompiled,
    /// The run failed.
    Failed,
    /// The run was given up after its time limit.
    TimedOut,
    /// The run settled, having observed these steps.
    Settled(Vec<ObservedStep>),
}

impl SandboxRun {
    /// What the run observed, where it settled.
    pub open spec fn observed(self) -> Option<Seq<ObservedStepView>> {
        match self {
            SandboxRun::Settled(steps) => Some(views(steps@)),
            _ => None,
        }
    }

    /// What the run observed, where it settled.
    pub fn steps(&self) -> (r: Option<&[ObservedStep]>)
        ensures
            match r {
                Some(steps) => self.observed() == Some(views(steps@)),
                None => self.observed() is None,
            },
    {
        match self {
            SandboxRun::Settled(steps) => Some(steps.as_slice()),
            _ => None,
        }
    }
}

/// Only a run that settled is held against a graph.
pub proof fn unsettled_runs_reject_nothing(graph: GraphView, run: SandboxRun)
    requires
        !(run is Settled),
    ensures
        verdict(graph, run.observed()) == Seq::<Seq<char>>::empty(),
{
}

/// Judges a graph by how its sandboxed run ended.
pub fn judge_run(graph: &WorkflowGraph, run: &SandboxRun) -> (r: Vec<String>)
    ensures
        views(r@) == verdict(graph@, run.observed()),
{
    let r = validate_required_arg_resolvability(graph, run.steps());
    assert(run.observed() is None ==> views(r@) =~= Seq::empty());
    r
}

/// A `null` that reads the trigger, or an output the sandbox cannot give, is
/// never held against the graph.
pub proof fn honest_nulls_are_not_rejected(
    graph: GraphView,
    node: Seq<char>,
    slug: Seq<char>,
    diagnostic: NullResolutionView,
)
    requires
        reads_trigger(
            diagnostic.expression,
            graph.edges,
            node,
            first_trigger(graph.nodes),
        ) || opaque_upstream(diagnostic.expression, graph, node) is Some,
    ensures
        complaint(graph, node, slug, diagnostic) is None,
{
}

/// A graph is rejected only on what was observed: no diagnostics, no message.
pub proof fn silence_rejects_nothing(graph: GraphView, steps: Seq<ObservedStepView>, n: nat)
    requires
        n <= steps.len(),
        forall|i: int| 0 <= i < steps.len() ==> (#[trigger] steps[i]).diagnostics.len() == 0,
    ensures
        run_complaints(graph, steps, n) == Seq::<Seq<char>>::empty(),
    decreases n,
{
    if n > 0 {
        silence_rejects_nothing(graph, steps, (n - 1) as nat);
        let step = steps[n - 1];
        assert(run_complaints(graph, steps, n) =~= Seq::empty());
    }
}

} // verus!
