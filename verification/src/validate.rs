//! Structural validation of workflow graphs, run before compilation.
use vstd::prelude::*;

use crate::error::{ErrorView, ValidationError};
use crate::json::JsonView;
use crate::json_text::{json_text, print_json};
use crate::lanes::{
    check_lanes, in_lane, is_collected, lane_errors, lemma_lanes_in_order, needs_approval,
};
use crate::literals::{
    agents_errors, bound, check_agents, check_literals, is_expression, items_at,
    lemma_blocks_literal, lemma_grants_literal, lemma_no_agent_errors, lemma_offers_literal,
    lemma_sources_literal, literal_errors, node_reasons,
};
use crate::model::agent::ContextSourceKindView;
use crate::model::graph::{
    addressable, input_type_text, is_valid_input_name, kind_name, kind_text, type_accepts,
    GraphView, Node, NodeKind, NodeView, WorkflowGraph, WorkflowInputView,
};
use crate::text::{debug_text, lemma_views_push, quoted, same, views};
use crate::walk::{has_kind, is_kind};

verus! {

broadcast use lemma_views_push;

/// The checks made node by node, each over all nodes before the next begins.
#[derive(Clone, Copy, PartialEq, Eq, Structural)]
pub enum NodeCheck {
    /// The id is used once.
    UniqueId,
    /// The error policy is known, and a routed error has an edge to leave by.
    OnError,
    /// A child workflow is given in exactly one way.
    SubWorkflow,
    /// The fan-out settings are ones the node can obey.
    FanOut,
    /// A memory operation has what it needs and writes only where it may.
    Memory,
    /// A dedup node has a key.
    Dedup,
    /// An approval that names its assignees names somebody.
    Assignees,
    /// The lanes a scatter opens are collected, and hold nothing they cannot.
    Lanes,
    /// What an agent acts as and may reach is written out.
    Literals,
}

/// The checks made edge by edge.
#[derive(Clone, Copy, PartialEq, Eq, Structural)]
pub enum EdgeCheck {
    /// Both ends are there and the edge is not a repetition.
    Integrity,
    /// No edge leaves a sink.
    VoidSink,
    /// An edge out of a condition leaves by `true` or `false`.
    ConditionRouting,
}

pub open spec fn config_error(node: NodeView, reason: Seq<char>) -> Seq<ErrorView> {
    seq![ErrorView::InvalidNodeConfig { node: node.id, reason }]
}

/// The one problem where `bad` holds, and none elsewhere.
pub open spec fn error_if(bad: bool, error: ErrorView) -> Seq<ErrorView> {
    if bad {
        seq![error]
    } else {
        Seq::empty()
    }
}

pub open spec fn reason_if(bad: bool, node: NodeView, reason: Seq<char>) -> Seq<ErrorView> {
    error_if(bad, ErrorView::InvalidNodeConfig { node: node.id, reason })
}

/// An earlier node has the id of node `i`.
pub open spec fn repeats_id(g: GraphView, i: int) -> bool {
    exists|k: int| 0 <= k < i && (#[trigger] g.nodes[k]).id == g.nodes[i].id
}

/// Some edge leaves `id` by its `error` port.
pub open spec fn has_error_edge(g: GraphView, id: Seq<char>) -> bool {
    exists|k: int|
        0 <= k < g.edges.len() && (#[trigger] g.edges[k]).from_node == id && g.edges[k].from_port
            == "error"@
}

pub open spec fn void_route_reason() -> Seq<char> {
    "`void` is a terminal sink, so on_error \"route\" has nowhere to route to (an `error` edge is an outgoing edge); use \"stop\" or \"continue\""@
}

pub open spec fn on_error_errors(g: GraphView, node: NodeView) -> Seq<ErrorView> {
    match node.config.text_at("on_error"@) {
        None => Seq::empty(),
        Some(policy) => if policy == "stop"@ || policy == "continue"@ {
            Seq::empty()
        } else if policy == "route"@ {
            if node.kind == NodeKind::Void {
                config_error(node, void_route_reason())
            } else {
                error_if(!has_error_edge(g, node.id), ErrorView::MissingErrorRoute(node.id))
            }
        } else {
            seq![ErrorView::InvalidOnError { node: node.id, value: policy }]
        },
    }
}

pub open spec fn sub_workflow_reason() -> Seq<char> {
    "sub_workflow requires exactly one of `workflow` (inline) or `workflow_id` (reference)"@
}

pub open spec fn sub_workflow_errors(node: NodeView) -> Seq<ErrorView> {
    reason_if(
        node.kind == NodeKind::SubWorkflow && (node.config.get("workflow"@) is Some)
            == node.config.has_text("workflow_id"@),
        node,
        sub_workflow_reason(),
    )
}

/// The kinds that can map over their input items.
pub open spec fn fans_out(kind: NodeKind) -> bool {
    ||| kind == NodeKind::Agent
    ||| kind == NodeKind::ToolCall
    ||| kind == NodeKind::HttpRequest
    ||| kind == NodeKind::Memory
    ||| kind == NodeKind::SubWorkflow
}

/// Whether a node maps over its input: as its configuration says, and else as
/// its kind does by default.
pub open spec fn maps_items(node: NodeView) -> bool {
    let execution = node.config.text_at("execution"@);
    if execution == Some("per_item"@) {
        true
    } else if execution == Some("once"@) {
        false
    } else {
        ||| node.kind == NodeKind::ToolCall
        ||| node.kind == NodeKind::HttpRequest
        ||| node.kind == NodeKind::Memory
    }
}

pub open spec fn execution_errors(node: NodeView) -> Seq<ErrorView> {
    match node.config.get("execution"@) {
        None => Seq::empty(),
        Some(execution) => if execution.as_str() == Some("once"@) || execution.as_str() == Some(
            "per_item"@,
        ) {
            reason_if(
                !fans_out(node.kind),
                node,
                "`execution` is not supported on a "@ + kind_text(node.kind)
                    + " node (only agent, tool_call, http_request, memory, and sub_workflow map over their input)"@,
            )
        } else {
            config_error(
                node,
                "unknown `execution` value "@ + json_text(execution)
                    + " (expected \"once\" or \"per_item\")"@,
            )
        },
    }
}

/// `value` is one the fan-out setting `key` can take.
pub open spec fn knob_accepts(key: Seq<char>, value: JsonView) -> bool {
    if key == "concurrency"@ {
        value.as_u64() is Some || value.as_str() == Some("all"@)
    } else {
        ||| value.as_str() == Some("collect"@)
        ||| value.as_str() == Some("fail_fast"@)
        ||| value.as_str() == Some("skip"@)
    }
}

pub open spec fn knob_expected(key: Seq<char>) -> Seq<char> {
    if key == "concurrency"@ {
        "a non-negative integer or \"all\""@
    } else {
        "\"collect\", \"fail_fast\", or \"skip\""@
    }
}

pub open spec fn knob_errors(node: NodeView, key: Seq<char>) -> Seq<ErrorView> {
    match node.config.get(key) {
        None => Seq::empty(),
        Some(value) => if !maps_items(node) {
            config_error(
                node,
                "`"@ + key + "` has no effect without `execution: \"per_item\"` on a "@ + kind_text(
                    node.kind,
                ) + " node"@,
            )
        } else {
            reason_if(
                !knob_accepts(key, value),
                node,
                "`"@ + key + "` must be "@ + knob_expected(key) + ", got "@ + json_text(value),
            )
        },
    }
}

pub open spec fn fan_out_errors(node: NodeView) -> Seq<ErrorView> {
    execution_errors(node) + knob_errors(node, "concurrency"@) + knob_errors(
        node,
        "on_item_error"@,
    )
}

pub open spec fn known_operation(operation: Seq<char>) -> bool {
    ||| operation == "recall"@
    ||| operation == "search"@
    ||| operation == "flavour"@
    ||| operation == "people"@
    ||| operation == "remember"@
    ||| operation == "forget"@
}

/// The operations that change what is remembered.
pub open spec fn writes_memory(operation: Seq<char>) -> bool {
    operation == "remember"@ || operation == "forget"@
}

pub open spec fn about_operation(operation: Seq<char>, rest: Seq<char>) -> Seq<char> {
    "memory node operation "@ + debug_text(operation) + rest
}

pub open spec fn read_only_scope_reason(operation: Seq<char>, scope: Seq<char>) -> Seq<char> {
    "memory node operation "@ + debug_text(operation) + " may not target scope "@ + debug_text(
        scope,
    )
        + " — remember/forget may only write scope \"flow\"; scopes \"user\" and \"flows\" are read-only from a workflow"@
}

/// What is wrong with the scope of a known memory operation.
pub open spec fn scope_errors(node: NodeView, operation: Seq<char>) -> Seq<ErrorView> {
    match node.config.text_at("scope"@) {
        Some(scope) => reason_if(
            writes_memory(operation) && (scope == "user"@ || scope == "flows"@),
            node,
            read_only_scope_reason(operation, scope),
        ) + reason_if(
            scope != "user"@ && scope != "flow"@ && scope != "flows"@,
            node,
            "memory node has unknown scope "@ + debug_text(scope)
                + " (expected user|flow|flows)"@,
        ),
        None => reason_if(
            operation == "recall"@ || writes_memory(operation),
            node,
            about_operation(operation, " requires `scope`"@),
        ),
    }
}

/// What a known memory operation lacks besides its scope.
pub open spec fn argument_errors(node: NodeView, operation: Seq<char>) -> Seq<ErrorView> {
    reason_if(
        (operation == "recall"@ || operation == "search"@) && !node.config.has_text("query"@),
        node,
        about_operation(operation, " requires `query`"@),
    ) + reason_if(
        operation == "flavour"@ && !node.config.has_text("flavour"@),
        node,
        "memory node operation \"flavour\" requires `flavour` (slug)"@,
    ) + reason_if(
        writes_memory(operation) && !node.config.has_text("key"@),
        node,
        about_operation(operation, " requires `key`"@),
    ) + reason_if(
        operation == "remember"@ && node.config.get("value"@) is None,
        node,
        "memory node operation \"remember\" requires `value`"@,
    )
}

pub open spec fn memory_errors(node: NodeView) -> Seq<ErrorView> {
    if node.kind != NodeKind::Memory {
        Seq::empty()
    } else {
        match node.config.text_at("operation"@) {
            None => config_error(
                node,
                "memory node requires `operation` (recall|search|flavour|people|remember|forget)"@,
            ),
            Some(operation) => if !known_operation(operation) {
                config_error(
                    node,
                    "memory node has unknown operation "@ + debug_text(operation)
                        + " (expected one of recall|search|flavour|people|remember|forget)"@,
                )
            } else {
                scope_errors(node, operation) + argument_errors(node, operation)
            },
        }
    }
}

pub open spec fn dedup_errors(node: NodeView) -> Seq<ErrorView> {
    reason_if(
        node.kind == NodeKind::Dedup && !node.config.has_text("key"@),
        node,
        "dedup node requires `key` (an \"=expr\" resolved per item, e.g. \"=item.id\")"@,
    )
}

/// What is wrong with the assignees of an approval. A text that begins with `=`
/// is resolved when the node runs.
pub open spec fn assignees_errors(node: NodeView) -> Seq<ErrorView> {
    match node.config.get("assignees"@) {
        None => Seq::empty(),
        Some(value) => if node.kind != NodeKind::Approval {
            Seq::empty()
        } else {
            match value.as_array() {
                Some(assignees) => reason_if(
                    assignees.len() == 0,
                    node,
                    "approval node has an empty `assignees`; a review with nobody assigned can never be resolved"@,
                ),
                None => reason_if(
                    !is_bound(value),
                    node,
                    "approval node `assignees` must be an array of strings, got "@ + json_text(
                        value,
                    ),
                ),
            }
        },
    }
}

/// The value is an expression, resolved when the node runs.
pub open spec fn is_bound(value: JsonView) -> bool {
    value.as_str() matches Some(text) && is_expression(text)
}

/// What a check finds wrong with node `i`.
pub open spec fn node_errors(check: NodeCheck, g: GraphView, i: int) -> Seq<ErrorView> {
    let node = g.nodes[i];
    match check {
        NodeCheck::UniqueId => error_if(repeats_id(g, i), ErrorView::DuplicateNodeId(node.id)),
        NodeCheck::OnError => on_error_errors(g, node),
        NodeCheck::SubWorkflow => sub_workflow_errors(node),
        NodeCheck::FanOut => fan_out_errors(node),
        NodeCheck::Memory => memory_errors(node),
        NodeCheck::Dedup => dedup_errors(node),
        NodeCheck::Assignees => assignees_errors(node),
        NodeCheck::Lanes => lane_errors(g, node),
        NodeCheck::Literals => literal_errors(node),
    }
}

/// What a check finds in the first `n` nodes, in node order.
pub open spec fn nodes_errors(check: NodeCheck, g: GraphView, n: nat) -> Seq<ErrorView>
    decreases n,
{
    if n == 0 {
        Seq::empty()
    } else {
        nodes_errors(check, g, (n - 1) as nat) + node_errors(check, g, n - 1)
    }
}

/// The ids of the trigger nodes among the first `n`, in node order.
pub open spec fn trigger_ids(g: GraphView, n: nat) -> Seq<Seq<char>>
    decreases n,
{
    if n == 0 {
        Seq::empty()
    } else if g.nodes[n - 1].kind == NodeKind::Trigger {
        trigger_ids(g, (n - 1) as nat).push(g.nodes[n - 1].id)
    } else {
        trigger_ids(g, (n - 1) as nat)
    }
}

/// There must be exactly one trigger.
pub open spec fn trigger_errors(g: GraphView) -> Seq<ErrorView> {
    let ids = trigger_ids(g, g.nodes.len());
    if ids.len() == 0 {
        seq![ErrorView::MissingTrigger]
    } else if ids.len() == 1 {
        Seq::empty()
    } else {
        seq![ErrorView::MultipleTriggers(ids)]
    }
}

/// An earlier edge is the same as edge `i`.
pub open spec fn repeats_edge(g: GraphView, i: int) -> bool {
    exists|k: int| 0 <= k < i && #[trigger] g.edges[k] == g.edges[i]
}

pub open spec fn void_edge_reason() -> Seq<char> {
    "`void` is a terminal sink, so no edge may leave it"@
}

/// What a check finds wrong with edge `i`.
pub open spec fn edge_errors(check: EdgeCheck, g: GraphView, i: int) -> Seq<ErrorView> {
    let edge = g.edges[i];
    match check {
        EdgeCheck::Integrity => error_if(
            !g.has_node(edge.from_node),
            ErrorView::UnknownNode(edge.from_node),
        ) + error_if(!g.has_node(edge.to_node), ErrorView::UnknownNode(edge.to_node)) + error_if(
            repeats_edge(g, i),
            ErrorView::DuplicateEdge {
                from_node: edge.from_node,
                from_port: edge.from_port,
                to_node: edge.to_node,
                to_port: edge.to_port,
            },
        ),
        EdgeCheck::VoidSink => error_if(
            is_kind(g, NodeKind::Void, edge.from_node),
            ErrorView::InvalidNodeConfig { node: edge.from_node, reason: void_edge_reason() },
        ),
        EdgeCheck::ConditionRouting => error_if(
            is_kind(g, NodeKind::Condition, edge.from_node) && edge.from_port != "true"@ && edge.from_port
                != "false"@,
            ErrorView::InvalidConditionRouting { node: edge.from_node, from_port: edge.from_port },
        ),
    }
}

/// What a check finds in the first `n` edges, in edge order.
pub open spec fn edges_errors(check: EdgeCheck, g: GraphView, n: nat) -> Seq<ErrorView>
    decreases n,
{
    if n == 0 {
        Seq::empty()
    } else {
        edges_errors(check, g, (n - 1) as nat) + edge_errors(check, g, n - 1)
    }
}

/// An earlier input has the name of input `i`.
pub open spec fn repeats_name(g: GraphView, i: int) -> bool {
    exists|k: int| 0 <= k < i && (#[trigger] g.inputs[k]).name == g.inputs[i].name
}

/// What is wrong with the default of a declared input.
pub open spec fn default_errors(input: WorkflowInputView) -> Seq<ErrorView> {
    match input.default {
        None => Seq::empty(),
        Some(default) => if !type_accepts(input.ty, default) {
            seq![
                ErrorView::InputDefaultTypeMismatch {
                    name: input.name,
                    expected: input_type_text(input.ty),
                },
            ]
        } else {
            error_if(input.required, ErrorView::RequiredInputWithDefault(input.name))
        },
    }
}

/// What is wrong with declared input `i`.
pub open spec fn input_errors(g: GraphView, i: int) -> Seq<ErrorView> {
    let input = g.inputs[i];
    error_if(!addressable(input.name), ErrorView::InvalidInputName(input.name)) + error_if(
        repeats_name(g, i),
        ErrorView::DuplicateInputName(input.name),
    ) + default_errors(input)
}

/// What is wrong with the first `n` declared inputs, in order.
pub open spec fn inputs_errors(g: GraphView, n: nat) -> Seq<ErrorView>
    decreases n,
{
    if n == 0 {
        Seq::empty()
    } else {
        inputs_errors(g, (n - 1) as nat) + input_errors(g, n - 1)
    }
}

/// Everything that is wrong with a graph, in the order in which it is reported.
pub open spec fn graph_errors(g: GraphView) -> Seq<ErrorView> {
    nodes_errors(NodeCheck::UniqueId, g, g.nodes.len()) + trigger_errors(g) + edges_errors(
        EdgeCheck::Integrity,
        g,
        g.edges.len(),
    ) + nodes_errors(NodeCheck::OnError, g, g.nodes.len()) + nodes_errors(
        NodeCheck::SubWorkflow,
        g,
        g.nodes.len(),
    ) + nodes_errors(NodeCheck::FanOut, g, g.nodes.len()) + nodes_errors(
        NodeCheck::Memory,
        g,
        g.nodes.len(),
    ) + nodes_errors(NodeCheck::Dedup, g, g.nodes.len()) + nodes_errors(
        NodeCheck::Assignees,
        g,
        g.nodes.len(),
    ) + edges_errors(EdgeCheck::VoidSink, g, g.edges.len()) + edges_errors(
        EdgeCheck::ConditionRouting,
        g,
        g.edges.len(),
    ) + nodes_errors(NodeCheck::Lanes, g, g.nodes.len()) + inputs_errors(g, g.inputs.len())
        + nodes_errors(NodeCheck::Literals, g, g.nodes.len()) + agents_errors(g, g.agents.len())
}

fn report(node: &Node, reason: String, errors: &mut Vec<ValidationError>)
    ensures
        views(final(errors)@) == views(old(errors)@) + config_error(node@, reason@),
{
    errors.push(ValidationError::InvalidNodeConfig { node: node.id.clone(), reason });
    assert(views(errors@) =~= views(old(errors)@) + config_error(node@, reason@));
}

pub(crate) fn report_if(bad: bool, node: &Node, reason: String, errors: &mut Vec<ValidationError>)
    ensures
        views(final(errors)@) == views(old(errors)@) + reason_if(bad, node@, reason@),
{
    if bad {
        report(node, reason, errors);
    } else {
        assert(views(errors@) =~= views(old(errors)@) + reason_if(bad, node@, reason@));
    }
}

fn push_if(bad: bool, error: ValidationError, errors: &mut Vec<ValidationError>)
    ensures
        views(final(errors)@) == views(old(errors)@) + error_if(bad, error@),
{
    if bad {
        errors.push(error);
    }
    assert(views(errors@) =~= views(old(errors)@) + error_if(bad, error@));
}

fn earlier_id(graph: &WorkflowGraph, i: usize) -> (r: bool)
    requires
        i < graph.nodes@.len(),
    ensures
        r == repeats_id(graph@, i as int),
{
    let mut k: usize = 0;
    while k < i
        invariant
            k <= i < graph.nodes@.len(),
            forall|j: int| 0 <= j < k ==> (#[trigger] graph@.nodes[j]).id != graph@.nodes[i as int].id,
        decreases i - k,
    {
        assert(graph@.nodes[k as int] == graph.nodes@[k as int]@);
        if graph.nodes[k].id == graph.nodes[i].id {
            return true;
        }
        k = k + 1;
    }
    false
}

fn error_edge(graph: &WorkflowGraph, id: &str) -> (r: bool)
    ensures
        r == has_error_edge(graph@, id@),
{
    let mut k: usize = 0;
    while k < graph.edges.len()
        invariant
            k <= graph.edges@.len(),
            forall|j: int|
                0 <= j < k ==> !((#[trigger] graph@.edges[j]).from_node == id@
                    && graph@.edges[j].from_port == "error"@),
        decreases graph.edges@.len() - k,
    {
        assert(graph@.edges[k as int] == graph.edges@[k as int]@);
        if same(graph.edges[k].from_node.as_str(), id) && same(
            graph.edges[k].from_port.as_str(),
            "error",
        ) {
            return true;
        }
        k = k + 1;
    }
    false
}

fn check_on_error(graph: &WorkflowGraph, node: &Node, errors: &mut Vec<ValidationError>)
    ensures
        views(final(errors)@) == views(old(errors)@) + on_error_errors(graph@, node@),
{
    match node.config.text_at("on_error") {
        None => {
            assert(views(errors@) =~= views(old(errors)@) + on_error_errors(graph@, node@));
        },
        Some(policy) => {
            if same(policy, "stop") || same(policy, "continue") {
                assert(views(errors@) =~= views(old(errors)@) + on_error_errors(graph@, node@));
            } else if same(policy, "route") {
                if node.kind == NodeKind::Void {
                    report(
                        node,
                        "`void` is a terminal sink, so on_error \"route\" has nowhere to route to (an `error` edge is an outgoing edge); use \"stop\" or \"continue\"".to_owned(),
                        errors,
                    );
                } else {
                    let missing = !error_edge(graph, node.id.as_str());
                    push_if(missing, ValidationError::MissingErrorRoute(node.id.clone()), errors);
                }
            } else {
                errors.push(
                    ValidationError::InvalidOnError {
                        node: node.id.clone(),
                        value: policy.to_owned(),
                    },
                );
                assert(views(errors@) =~= views(old(errors)@) + on_error_errors(graph@, node@));
            }
        },
    }
}

fn check_sub_workflow(node: &Node, errors: &mut Vec<ValidationError>)
    ensures
        views(final(errors)@) == views(old(errors)@) + sub_workflow_errors(node@),
{
    let bad = node.kind == NodeKind::SubWorkflow && node.config.get("workflow").is_some()
        == node.config.has_text("workflow_id");
    report_if(
        bad,
        node,
        "sub_workflow requires exactly one of `workflow` (inline) or `workflow_id` (reference)".to_owned(),
        errors,
    );
}

fn is_text(value: Option<&str>, text: &str) -> (r: bool)
    ensures
        r == (match value {
            Some(v) => v@ == text@,
            None => false,
        }),
{
    match value {
        Some(v) => same(v, text),
        None => false,
    }
}

fn maps_over_items(node: &Node) -> (r: bool)
    ensures
        r == maps_items(node@),
{
    let execution = node.config.text_at("execution");
    if is_text(execution, "per_item") {
        true
    } else if is_text(execution, "once") {
        false
    } else {
        node.kind == NodeKind::ToolCall || node.kind == NodeKind::HttpRequest || node.kind
            == NodeKind::Memory
    }
}

fn check_execution(node: &Node, errors: &mut Vec<ValidationError>)
    ensures
        views(final(errors)@) == views(old(errors)@) + execution_errors(node@),
{
    match node.config.get("execution") {
        None => {
            assert(views(errors@) =~= views(old(errors)@) + execution_errors(node@));
        },
        Some(execution) => {
            let value = execution.as_str();
            if is_text(value, "once") || is_text(value, "per_item") {
                let able = node.kind == NodeKind::Agent || node.kind == NodeKind::ToolCall
                    || node.kind == NodeKind::HttpRequest || node.kind == NodeKind::Memory
                    || node.kind == NodeKind::SubWorkflow;
                let mut reason = "`execution` is not supported on a ".to_owned();
                reason.append(kind_name(&node.kind));
                reason.append(
                    " node (only agent, tool_call, http_request, memory, and sub_workflow map over their input)",
                );
                report_if(!able, node, reason, errors);
            } else {
                let mut reason = "unknown `execution` value ".to_owned();
                reason.append(print_json(execution).as_str());
                reason.append(" (expected \"once\" or \"per_item\")");
                report(node, reason, errors);
            }
        },
    }
}

fn check_knob(node: &Node, key: &str, errors: &mut Vec<ValidationError>)
    ensures
        views(final(errors)@) == views(old(errors)@) + knob_errors(node@, key@),
{
    match node.config.get(key) {
        None => {
            assert(views(errors@) =~= views(old(errors)@) + knob_errors(node@, key@));
        },
        Some(value) => {
            let mut reason = "`".to_owned();
            reason.append(key);
            if !maps_over_items(node) {
                reason.append("` has no effect without `execution: \"per_item\"` on a ");
                reason.append(kind_name(&node.kind));
                reason.append(" node");
                report(node, reason, errors);
            } else {
                let text = value.as_str();
                let concurrency = same(key, "concurrency");
                let accepted = if concurrency {
                    value.as_u64().is_some() || is_text(text, "all")
                } else {
                    is_text(text, "collect") || is_text(text, "fail_fast") || is_text(text, "skip")
                };
                reason.append("` must be ");
                if concurrency {
                    reason.append("a non-negative integer or \"all\"");
                } else {
                    reason.append("\"collect\", \"fail_fast\", or \"skip\"");
                }
                reason.append(", got ");
                reason.append(print_json(value).as_str());
                report_if(!accepted, node, reason, errors);
            }
        },
    }
}

fn check_fan_out(node: &Node, errors: &mut Vec<ValidationError>)
    ensures
        views(final(errors)@) == views(old(errors)@) + fan_out_errors(node@),
{
    check_execution(node, errors);
    check_knob(node, "concurrency", errors);
    check_knob(node, "on_item_error", errors);
    assert(views(errors@) =~= views(old(errors)@) + fan_out_errors(node@));
}

fn about(operation: &str, rest: &str) -> (r: String)
    ensures
        r@ == about_operation(operation@, rest@),
{
    let mut reason = "memory node operation ".to_owned();
    reason.append(quoted(operation).as_str());
    reason.append(rest);
    reason
}

fn check_scope(node: &Node, operation: &str, errors: &mut Vec<ValidationError>)
    ensures
        views(final(errors)@) == views(old(errors)@) + scope_errors(node@, operation@),
{
    let writes = same(operation, "remember") || same(operation, "forget");
    match node.config.text_at("scope") {
        Some(scope) => {
            let mut reason = "memory node operation ".to_owned();
            reason.append(quoted(operation).as_str());
            reason.append(" may not target scope ");
            reason.append(quoted(scope).as_str());
            reason.append(
                " — remember/forget may only write scope \"flow\"; scopes \"user\" and \"flows\" are read-only from a workflow",
            );
            let forbidden = writes && (same(scope, "user") || same(scope, "flows"));
            report_if(forbidden, node, reason, errors);
            let mut reason = "memory node has unknown scope ".to_owned();
            reason.append(quoted(scope).as_str());
            reason.append(" (expected user|flow|flows)");
            let unknown = !same(scope, "user") && !same(scope, "flow") && !same(scope, "flows");
            report_if(unknown, node, reason, errors);
            assert(views(errors@) =~= views(old(errors)@) + scope_errors(node@, operation@));
        },
        None => {
            let needed = same(operation, "recall") || writes;
            report_if(needed, node, about(operation, " requires `scope`"), errors);
        },
    }
}

fn check_arguments(node: &Node, operation: &str, errors: &mut Vec<ValidationError>)
    ensures
        views(final(errors)@) == views(old(errors)@) + argument_errors(node@, operation@),
{
    let writes = same(operation, "remember") || same(operation, "forget");
    let no_query = (same(operation, "recall") || same(operation, "search"))
        && !node.config.has_text("query");
    report_if(no_query, node, about(operation, " requires `query`"), errors);
    let no_flavour = same(operation, "flavour") && !node.config.has_text("flavour");
    report_if(
        no_flavour,
        node,
        "memory node operation \"flavour\" requires `flavour` (slug)".to_owned(),
        errors,
    );
    let no_key = writes && !node.config.has_text("key");
    report_if(no_key, node, about(operation, " requires `key`"), errors);
    let no_value = same(operation, "remember") && node.config.get("value").is_none();
    report_if(
        no_value,
        node,
        "memory node operation \"remember\" requires `value`".to_owned(),
        errors,
    );
    assert(views(errors@) =~= views(old(errors)@) + argument_errors(node@, operation@));
}

fn check_memory(node: &Node, errors: &mut Vec<ValidationError>)
    ensures
        views(final(errors)@) == views(old(errors)@) + memory_errors(node@),
{
    if node.kind != NodeKind::Memory {
        assert(views(errors@) =~= views(old(errors)@) + memory_errors(node@));
        return;
    }
    match node.config.text_at("operation") {
        None => {
            report(
                node,
                "memory node requires `operation` (recall|search|flavour|people|remember|forget)".to_owned(),
                errors,
            );
        },
        Some(operation) => {
            let known = same(operation, "recall") || same(operation, "search") || same(
                operation,
                "flavour",
            ) || same(operation, "people") || same(operation, "remember") || same(
                operation,
                "forget",
            );
            if !known {
                let mut reason = "memory node has unknown operation ".to_owned();
                reason.append(quoted(operation).as_str());
                reason.append(" (expected one of recall|search|flavour|people|remember|forget)");
                report(node, reason, errors);
            } else {
                check_scope(node, operation, errors);
                check_arguments(node, operation, errors);
                assert(views(errors@) =~= views(old(errors)@) + memory_errors(node@));
            }
        },
    }
}

fn check_dedup(node: &Node, errors: &mut Vec<ValidationError>)
    ensures
        views(final(errors)@) == views(old(errors)@) + dedup_errors(node@),
{
    let bad = node.kind == NodeKind::Dedup && !node.config.has_text("key");
    report_if(
        bad,
        node,
        "dedup node requires `key` (an \"=expr\" resolved per item, e.g. \"=item.id\")".to_owned(),
        errors,
    );
}

fn check_assignees(node: &Node, errors: &mut Vec<ValidationError>)
    ensures
        views(final(errors)@) == views(old(errors)@) + assignees_errors(node@),
{
    match node.config.get("assignees") {
        Some(value) => {
            if node.kind != NodeKind::Approval {
                assert(views(errors@) =~= views(old(errors)@) + assignees_errors(node@));
                return;
            }
            match value.as_array() {
                Some(assignees) => report_if(
                    assignees.len() == 0,
                    node,
                    "approval node has an empty `assignees`; a review with nobody assigned can never be resolved".to_owned(),
                    errors,
                ),
                None => {
                    let resolved = match value.as_str() {
                        Some(text) => bound(text),
                        None => false,
                    };
                    let mut reason = "approval node `assignees` must be an array of strings, got ".to_owned();
                    reason.append(print_json(value).as_str());
                    report_if(!resolved, node, reason, errors);
                },
            }
        },
        None => {
            assert(views(errors@) =~= views(old(errors)@) + assignees_errors(node@));
        },
    }
}

fn check_nodes(check: NodeCheck, graph: &WorkflowGraph, errors: &mut Vec<ValidationError>)
    ensures
        views(final(errors)@) == views(old(errors)@) + nodes_errors(
            check,
            graph@,
            graph@.nodes.len(),
        ),
{
    let mut i: usize = 0;
    assert(views(errors@) =~= views(old(errors)@) + nodes_errors(check, graph@, 0));
    while i < graph.nodes.len()
        invariant
            i <= graph.nodes@.len(),
            views(errors@) == views(old(errors)@) + nodes_errors(check, graph@, i as nat),
        decreases graph.nodes@.len() - i,
    {
        let node = &graph.nodes[i];
        let ghost before = views(errors@);
        assert(graph@.nodes[i as int] == node@);
        match check {
            NodeCheck::UniqueId => {
                let repeated = earlier_id(graph, i);
                push_if(repeated, ValidationError::DuplicateNodeId(node.id.clone()), errors);
            },
            NodeCheck::OnError => check_on_error(graph, node, errors),
            NodeCheck::SubWorkflow => check_sub_workflow(node, errors),
            NodeCheck::FanOut => check_fan_out(node, errors),
            NodeCheck::Memory => check_memory(node, errors),
            NodeCheck::Dedup => check_dedup(node, errors),
            NodeCheck::Assignees => check_assignees(node, errors),
            NodeCheck::Lanes => check_lanes(graph, node, errors),
            NodeCheck::Literals => check_literals(node, errors),
        }
        assert(views(errors@) == before + node_errors(check, graph@, i as int));
        assert(views(errors@) =~= views(old(errors)@) + nodes_errors(check, graph@, (i + 1) as nat));
        i = i + 1;
    }
}

fn check_triggers(graph: &WorkflowGraph, errors: &mut Vec<ValidationError>)
    ensures
        views(final(errors)@) == views(old(errors)@) + trigger_errors(graph@),
{
    let mut ids: Vec<String> = Vec::new();
    let mut i: usize = 0;
    assert(views(ids@) =~= trigger_ids(graph@, 0));
    while i < graph.nodes.len()
        invariant
            i <= graph.nodes@.len(),
            views(ids@) == trigger_ids(graph@, i as nat),
        decreases graph.nodes@.len() - i,
    {
        assert(graph@.nodes[i as int] == graph.nodes@[i as int]@);
        if graph.nodes[i].kind == NodeKind::Trigger {
            ids.push(graph.nodes[i].id.clone());
        }
        i = i + 1;
    }
    if ids.len() == 0 {
        errors.push(ValidationError::MissingTrigger);
    } else if ids.len() > 1 {
        errors.push(ValidationError::MultipleTriggers(ids));
    }
    assert(views(errors@) =~= views(old(errors)@) + trigger_errors(graph@));
}

fn earlier_edge(graph: &WorkflowGraph, i: usize) -> (r: bool)
    requires
        i < graph.edges@.len(),
    ensures
        r == repeats_edge(graph@, i as int),
{
    let b = &graph.edges[i];
    assert(graph@.edges[i as int] == b@);
    let mut k: usize = 0;
    while k < i
        invariant
            k <= i < graph.edges@.len(),
            graph@.edges[i as int] == b@,
            forall|j: int| 0 <= j < k ==> #[trigger] graph@.edges[j] != graph@.edges[i as int],
        decreases i - k,
    {
        let a = &graph.edges[k];
        assert(graph@.edges[k as int] == a@);
        if a.from_node == b.from_node && a.from_port == b.from_port && a.to_node == b.to_node
            && a.to_port == b.to_port {
            assert(a@ =~= b@);
            return true;
        }
        k = k + 1;
    }
    false
}

fn check_edges(check: EdgeCheck, graph: &WorkflowGraph, errors: &mut Vec<ValidationError>)
    ensures
        views(final(errors)@) == views(old(errors)@) + edges_errors(
            check,
            graph@,
            graph@.edges.len(),
        ),
{
    let mut i: usize = 0;
    assert(views(errors@) =~= views(old(errors)@) + edges_errors(check, graph@, 0));
    while i < graph.edges.len()
        invariant
            i <= graph.edges@.len(),
            views(errors@) == views(old(errors)@) + edges_errors(check, graph@, i as nat),
        decreases graph.edges@.len() - i,
    {
        let edge = &graph.edges[i];
        let ghost before = views(errors@);
        assert(graph@.edges[i as int] == edge@);
        match check {
            EdgeCheck::Integrity => {
                let no_source = graph.node_index(edge.from_node.as_str()).is_none();
                push_if(no_source, ValidationError::UnknownNode(edge.from_node.clone()), errors);
                let no_target = graph.node_index(edge.to_node.as_str()).is_none();
                push_if(no_target, ValidationError::UnknownNode(edge.to_node.clone()), errors);
                let repeated = earlier_edge(graph, i);
                push_if(
                    repeated,
                    ValidationError::DuplicateEdge {
                        from_node: edge.from_node.clone(),
                        from_port: edge.from_port.clone(),
                        to_node: edge.to_node.clone(),
                        to_port: edge.to_port.clone(),
                    },
                    errors,
                );
            },
            EdgeCheck::VoidSink => {
                let bad = has_kind(graph, NodeKind::Void, edge.from_node.as_str());
                push_if(
                    bad,
                    ValidationError::InvalidNodeConfig {
                        node: edge.from_node.clone(),
                        reason: "`void` is a terminal sink, so no edge may leave it".to_owned(),
                    },
                    errors,
                );
            },
            EdgeCheck::ConditionRouting => {
                let bad = has_kind(graph, NodeKind::Condition, edge.from_node.as_str()) && !same(
                    edge.from_port.as_str(),
                    "true",
                ) && !same(edge.from_port.as_str(), "false");
                push_if(
                    bad,
                    ValidationError::InvalidConditionRouting {
                        node: edge.from_node.clone(),
                        from_port: edge.from_port.clone(),
                    },
                    errors,
                );
            },
        }
        assert(views(errors@) =~= before + edge_errors(check, graph@, i as int));
        assert(views(errors@) =~= views(old(errors)@) + edges_errors(check, graph@, (i + 1) as nat));
        i = i + 1;
    }
}

fn earlier_name(graph: &WorkflowGraph, i: usize) -> (r: bool)
    requires
        i < graph.inputs@.len(),
    ensures
        r == repeats_name(graph@, i as int),
{
    let mut k: usize = 0;
    while k < i
        invariant
            k <= i < graph.inputs@.len(),
            forall|j: int|
                0 <= j < k ==> (#[trigger] graph@.inputs[j]).name != graph@.inputs[i as int].name,
        decreases i - k,
    {
        assert(graph@.inputs[k as int] == graph.inputs@[k as int]@);
        if graph.inputs[k].name == graph.inputs[i].name {
            return true;
        }
        k = k + 1;
    }
    false
}

fn check_inputs(graph: &WorkflowGraph, errors: &mut Vec<ValidationError>)
    ensures
        views(final(errors)@) == views(old(errors)@) + inputs_errors(graph@, graph@.inputs.len()),
{
    let mut i: usize = 0;
    assert(views(errors@) =~= views(old(errors)@) + inputs_errors(graph@, 0));
    while i < graph.inputs.len()
        invariant
            i <= graph.inputs@.len(),
            views(errors@) == views(old(errors)@) + inputs_errors(graph@, i as nat),
        decreases graph.inputs@.len() - i,
    {
        let input = &graph.inputs[i];
        let ghost before = views(errors@);
        assert(graph@.inputs[i as int] == input@);
        let unaddressable = !is_valid_input_name(input.name.as_str());
        push_if(unaddressable, ValidationError::InvalidInputName(input.name.clone()), errors);
        let repeated = earlier_name(graph, i);
        push_if(repeated, ValidationError::DuplicateInputName(input.name.clone()), errors);
        let ghost named = views(errors@);
        match &input.default {
            Some(default) => {
                if !input.ty.accepts(default) {
                    errors.push(
                        ValidationError::InputDefaultTypeMismatch {
                            name: input.name.clone(),
                            expected: input.ty.as_str(),
                        },
                    );
                } else if input.required {
                    errors.push(ValidationError::RequiredInputWithDefault(input.name.clone()));
                }
            },
            None => {},
        }
        assert(views(errors@) =~= named + default_errors(input@));
        assert(views(errors@) =~= before + input_errors(graph@, i as int));
        assert(views(errors@) =~= views(old(errors)@) + inputs_errors(graph@, (i + 1) as nat));
        i = i + 1;
    }
}

/// Validates a graph's structure, collecting every independent problem in one
/// pass; a valid graph has none.
///
/// Problems come in a fixed order: duplicate ids, trigger count, edge
/// integrity, error policy, per-kind configuration, edges out of a sink,
/// condition routing, lanes, declared inputs, agents.
///
/// Cycles are not judged: a graph whose edges lead back to a node they come from
/// has no problem on that account, whether or not a `loop` node bounds it.
pub fn validate_all(graph: &WorkflowGraph) -> (errors: Vec<ValidationError>)
    ensures
        views(errors@) == graph_errors(graph@),
{
    let mut errors: Vec<ValidationError> = Vec::new();
    check_nodes(NodeCheck::UniqueId, graph, &mut errors);
    check_triggers(graph, &mut errors);
    check_edges(EdgeCheck::Integrity, graph, &mut errors);
    check_nodes(NodeCheck::OnError, graph, &mut errors);
    check_nodes(NodeCheck::SubWorkflow, graph, &mut errors);
    check_nodes(NodeCheck::FanOut, graph, &mut errors);
    check_nodes(NodeCheck::Memory, graph, &mut errors);
    check_nodes(NodeCheck::Dedup, graph, &mut errors);
    check_nodes(NodeCheck::Assignees, graph, &mut errors);
    check_edges(EdgeCheck::VoidSink, graph, &mut errors);
    check_edges(EdgeCheck::ConditionRouting, graph, &mut errors);
    check_nodes(NodeCheck::Lanes, graph, &mut errors);
    check_inputs(graph, &mut errors);
    check_nodes(NodeCheck::Literals, graph, &mut errors);
    check_agents(graph, &mut errors);
    assert(views(errors@) =~= graph_errors(graph@));
    errors
}

/// Validates a graph's structure: the first problem that [`validate_all`]
/// reports, for callers that stop at one. It judges no cycles either.
pub fn validate(graph: &WorkflowGraph) -> (r: Result<(), ValidationError>)
    ensures
        match r {
            Ok(()) => graph_errors(graph@).len() == 0,
            Err(error) => graph_errors(graph@).len() > 0 && error@ == graph_errors(graph@)[0],
        },
{
    let mut errors = validate_all(graph);
    if errors.len() == 0 {
        assert(graph_errors(graph@).len() == 0);
        Ok(())
    } else {
        assert(graph_errors(graph@)[0] == errors@[0]@);
        Err(errors.remove(0))
    }
}

proof fn lemma_no_node_errors(check: NodeCheck, g: GraphView, n: nat, i: int)
    requires
        nodes_errors(check, g, n).len() == 0,
        0 <= i < n,
    ensures
        node_errors(check, g, i).len() == 0,
    decreases n,
{
    if i < n - 1 {
        lemma_no_node_errors(check, g, (n - 1) as nat, i);
    }
}

proof fn lemma_no_edge_errors(check: EdgeCheck, g: GraphView, n: nat, i: int)
    requires
        edges_errors(check, g, n).len() == 0,
        0 <= i < n,
    ensures
        edge_errors(check, g, i).len() == 0,
    decreases n,
{
    if i < n - 1 {
        lemma_no_edge_errors(check, g, (n - 1) as nat, i);
    }
}

proof fn lemma_no_input_errors(g: GraphView, n: nat, i: int)
    requires
        inputs_errors(g, n).len() == 0,
        0 <= i < n,
    ensures
        input_errors(g, i).len() == 0,
    decreases n,
{
    if i < n - 1 {
        lemma_no_input_errors(g, (n - 1) as nat, i);
    }
}

proof fn lemma_one_trigger(g: GraphView, n: nat)
    requires
        n <= g.nodes.len(),
        trigger_ids(g, n).len() == 1,
    ensures
        exists|i: int| 0 <= i < n && (#[trigger] g.nodes[i]).kind == NodeKind::Trigger,
        forall|i: int, k: int|
            0 <= i < n && 0 <= k < n && (#[trigger] g.nodes[i]).kind == NodeKind::Trigger && (
            #[trigger] g.nodes[k]).kind == NodeKind::Trigger ==> i == k,
    decreases n,
{
    if g.nodes[n - 1].kind == NodeKind::Trigger {
        lemma_no_trigger(g, (n - 1) as nat);
    } else {
        lemma_one_trigger(g, (n - 1) as nat);
    }
}

proof fn lemma_no_trigger(g: GraphView, n: nat)
    requires
        n <= g.nodes.len(),
        trigger_ids(g, n).len() == 0,
    ensures
        forall|i: int| 0 <= i < n ==> (#[trigger] g.nodes[i]).kind != NodeKind::Trigger,
    decreases n,
{
    if n > 0 {
        lemma_no_trigger(g, (n - 1) as nat);
    }
}

/// A graph with no reported problem has one trigger, unique node ids, edges
/// between nodes that are there with none twice, and addressable, unique
/// inputs whose defaults are of their type and never required.
pub proof fn valid_graph_is_well_formed(g: GraphView)
    requires
        graph_errors(g).len() == 0,
    ensures
        forall|i: int, k: int|
            0 <= k < i < g.nodes.len() ==> (#[trigger] g.nodes[k]).id != (#[trigger] g.nodes[i]).id,
        exists|i: int| 0 <= i < g.nodes.len() && (#[trigger] g.nodes[i]).kind == NodeKind::Trigger,
        forall|i: int, k: int|
            0 <= i < g.nodes.len() && 0 <= k < g.nodes.len() && (#[trigger] g.nodes[i]).kind
                == NodeKind::Trigger && (#[trigger] g.nodes[k]).kind == NodeKind::Trigger ==> i
                == k,
        forall|i: int|
            0 <= i < g.edges.len() ==> g.has_node((#[trigger] g.edges[i]).from_node) && g.has_node(
                g.edges[i].to_node,
            ),
        forall|i: int, k: int|
            0 <= k < i < g.edges.len() ==> #[trigger] g.edges[k] != #[trigger] g.edges[i],
        forall|i: int| 0 <= i < g.inputs.len() ==> addressable((#[trigger] g.inputs[i]).name),
        forall|i: int, k: int|
            0 <= k < i < g.inputs.len() ==> (#[trigger] g.inputs[k]).name != (
            #[trigger] g.inputs[i]).name,
        forall|i: int|
            0 <= i < g.inputs.len() ==> ((#[trigger] g.inputs[i]).default matches Some(default)
                ==> type_accepts(g.inputs[i].ty, default) && !g.inputs[i].required),
{
    lemma_one_trigger(g, g.nodes.len());
    assert forall|i: int, k: int| 0 <= k < i < g.nodes.len() implies (#[trigger] g.nodes[k]).id != (
    #[trigger] g.nodes[i]).id by {
        lemma_no_node_errors(NodeCheck::UniqueId, g, g.nodes.len(), i);
    }
    assert forall|i: int| 0 <= i < g.edges.len() implies g.has_node(
        (#[trigger] g.edges[i]).from_node,
    ) && g.has_node(g.edges[i].to_node) by {
        lemma_no_edge_errors(EdgeCheck::Integrity, g, g.edges.len(), i);
    }
    assert forall|i: int, k: int| 0 <= k < i < g.edges.len() implies #[trigger] g.edges[k]
        != #[trigger] g.edges[i] by {
        lemma_no_edge_errors(EdgeCheck::Integrity, g, g.edges.len(), i);
    }
    assert forall|i: int| 0 <= i < g.inputs.len() implies addressable(
        (#[trigger] g.inputs[i]).name,
    ) by {
        lemma_no_input_errors(g, g.inputs.len(), i);
    }
    assert forall|i: int, k: int| 0 <= k < i < g.inputs.len() implies (#[trigger] g.inputs[k]).name
        != (#[trigger] g.inputs[i]).name by {
        lemma_no_input_errors(g, g.inputs.len(), i);
    }
    assert forall|i: int| 0 <= i < g.inputs.len() implies ((
    #[trigger] g.inputs[i]).default matches Some(default) ==> type_accepts(g.inputs[i].ty, default)
        && !g.inputs[i].required) by {
        lemma_no_input_errors(g, g.inputs.len(), i);
    }
}

/// No graph that validates can write memory outside its own flow: a `remember`
/// or `forget` node always targets scope `flow`.
pub proof fn memory_writes_stay_in_the_flow(g: GraphView, i: int)
    requires
        graph_errors(g).len() == 0,
        0 <= i < g.nodes.len(),
        g.nodes[i].kind == NodeKind::Memory,
        g.nodes[i].config.text_at("operation"@) matches Some(operation) && writes_memory(operation),
    ensures
        g.nodes[i].config.text_at("scope"@) == Some("flow"@),
{
    lemma_no_node_errors(NodeCheck::Memory, g, g.nodes.len(), i);
}

/// In a graph that validates, every edge out of a condition leaves by `true`
/// or `false`.
pub proof fn conditions_route_by_verdict(g: GraphView, edge: int)
    requires
        graph_errors(g).len() == 0,
        0 <= edge < g.edges.len(),
        is_kind(g, NodeKind::Condition, g.edges[edge].from_node),
    ensures
        g.edges[edge].from_port == "true"@ || g.edges[edge].from_port == "false"@,
{
    lemma_no_edge_errors(EdgeCheck::ConditionRouting, g, g.edges.len(), edge);
}

/// In a graph that validates, a node whose errors are routed is no sink and has
/// an edge that carries them.
pub proof fn routed_errors_have_a_route(g: GraphView, i: int)
    requires
        graph_errors(g).len() == 0,
        0 <= i < g.nodes.len(),
        g.nodes[i].config.text_at("on_error"@) == Some("route"@),
    ensures
        g.nodes[i].kind != NodeKind::Void,
        has_error_edge(g, g.nodes[i].id),
{
    lemma_no_node_errors(NodeCheck::OnError, g, g.nodes.len(), i);
    reveal_strlit("route");
    reveal_strlit("stop");
    reveal_strlit("continue");
    assert("route"@.len() == 5 && "stop"@.len() == 4 && "continue"@.len() == 8);
}

/// In a graph that validates, every scatter reaches a gather.
pub proof fn scatters_are_collected(g: GraphView, i: int)
    requires
        graph_errors(g).len() == 0,
        0 <= i < g.nodes.len(),
        g.nodes[i].kind == NodeKind::Scatter,
    ensures
        is_collected(g, g.nodes[i].id),
{
    lemma_no_node_errors(NodeCheck::Lanes, g, g.nodes.len(), i);
}

/// In a graph that validates, every node in a lane has a path onward to a
/// gather, and is neither a scatter nor a loop head nor one that waits for an
/// approval.
pub proof fn lanes_are_in_order(g: GraphView, scatter: int, i: int)
    requires
        graph_errors(g).len() == 0,
        0 <= scatter < g.nodes.len(),
        g.nodes[scatter].kind == NodeKind::Scatter,
        0 <= i < g.nodes.len(),
        in_lane(g, g.nodes[scatter].id, g.nodes[i].id),
    ensures
        is_collected(g, g.nodes[i].id),
        g.nodes[i].kind != NodeKind::Scatter,
        g.nodes[i].kind != NodeKind::Loop,
        !needs_approval(g.nodes[i]),
{
    lemma_no_node_errors(NodeCheck::Lanes, g, g.nodes.len(), scatter);
    lemma_lanes_in_order(g, g.nodes[scatter], i);
}

/// In a graph that validates, no edge leaves a sink.
pub proof fn nothing_leaves_a_sink(g: GraphView, edge: int)
    requires
        graph_errors(g).len() == 0,
        0 <= edge < g.edges.len(),
    ensures
        !is_kind(g, NodeKind::Void, g.edges[edge].from_node),
{
    lemma_no_edge_errors(EdgeCheck::VoidSink, g, g.edges.len(), edge);
}

/// In a graph that validates, an approval whose assignees are written out names
/// somebody.
pub proof fn written_assignees_are_somebody(g: GraphView, i: int)
    requires
        graph_errors(g).len() == 0,
        0 <= i < g.nodes.len(),
        g.nodes[i].kind == NodeKind::Approval,
    ensures
        g.nodes[i].config.get("assignees"@) matches Some(value) ==> is_bound(value) || (
        value.as_array() matches Some(assignees) && assignees.len() > 0),
{
    lemma_no_node_errors(NodeCheck::Assignees, g, g.nodes.len(), i);
}

/// In a graph that validates, no expression chooses the agent a node runs, or
/// the tools it offers and the connections they are called on.
pub proof fn nodes_choose_their_agents_and_tools(g: GraphView, i: int, k: int)
    requires
        graph_errors(g).len() == 0,
        0 <= i < g.nodes.len(),
        g.nodes[i].kind == NodeKind::Agent,
    ensures
        g.nodes[i].config.text_at("agent_ref"@) matches Some(name) ==> !is_expression(name),
        0 <= k < items_at(g.nodes[i].config, "tools"@).len() ==> ({
            let tool = items_at(g.nodes[i].config, "tools"@)[k];
            &&& tool.text_at("slug"@) matches Some(slug) ==> !is_expression(slug)
            &&& tool.text_at("connection_ref"@) matches Some(name) ==> !is_expression(name)
        }),
{
    lemma_no_node_errors(NodeCheck::Literals, g, g.nodes.len(), i);
    let tools = items_at(g.nodes[i].config, "tools"@);
    assert(node_reasons(g.nodes[i]).len() == 0);
    if 0 <= k < tools.len() {
        lemma_offers_literal(tools, tools.len(), k);
    }
}

/// In a graph that validates, no expression chooses the tools an agent is
/// granted, or the connections they are called on.
pub proof fn grants_are_written_out(g: GraphView, agent: int, k: int)
    requires
        graph_errors(g).len() == 0,
        0 <= agent < g.agents.len(),
        0 <= k < g.agents[agent].tools.len(),
    ensures
        !is_expression(g.agents[agent].tools[k].slug),
        g.agents[agent].tools[k].connection_ref matches Some(name) ==> !is_expression(name),
{
    lemma_no_agent_errors(g, g.agents.len(), agent);
    lemma_grants_literal(g.agents[agent].tools, g.agents[agent].tools.len(), k);
}

/// In a graph that validates, no expression chooses the memory that a node's
/// context, or an agent's, is recalled from.
pub proof fn recalled_scopes_are_written_out(g: GraphView, node: int, agent: int, k: int)
    requires
        graph_errors(g).len() == 0,
    ensures
        0 <= node < g.nodes.len() && g.nodes[node].kind == NodeKind::Agent && 0 <= k < items_at(
            g.nodes[node].config,
            "context"@,
        ).len() ==> ({
            let source = items_at(g.nodes[node].config, "context"@)[k];
            source.text_at("kind"@) == Some("memory"@) ==> (source.text_at(
                "scope"@,
            ) matches Some(scope) ==> !is_expression(scope))
        }),
        0 <= agent < g.agents.len() && 0 <= k < g.agents[agent].context.len() ==> (
        g.agents[agent].context[k].kind matches ContextSourceKindView::Memory { scope, .. }
            ==> !is_expression(scope)),
{
    if 0 <= node < g.nodes.len() && g.nodes[node].kind == NodeKind::Agent {
        lemma_no_node_errors(NodeCheck::Literals, g, g.nodes.len(), node);
        let sources = items_at(g.nodes[node].config, "context"@);
        assert(node_reasons(g.nodes[node]).len() == 0);
        if 0 <= k < sources.len() && sources[k].text_at("kind"@) == Some("memory"@) {
            lemma_blocks_literal(sources, sources.len(), k);
        }
    }
    if 0 <= agent < g.agents.len() {
        lemma_no_agent_errors(g, g.agents.len(), agent);
        let sources = g.agents[agent].context;
        if 0 <= k < sources.len() {
            lemma_sources_literal(sources, sources.len(), k);
        }
    }
}

} // verus!
