//! Which graphs validate, and what is said of those that do not.
use vstd::prelude::*;

use crate::error::ErrorView;
use crate::json::{JsonView, NumberView};
use crate::lanes::{
    in_lane, is_collected, lane_errors, member_errors, members_errors, uncollected_reason,
};
use crate::literals::{
    agents_errors, blocks_reasons, definition_errors, grants_reasons, is_expression, items_at,
    literal_errors, offers_reasons, sources_reasons,
};
use crate::model::agent::{
    AgentDefinitionView, ContextSourceKindView, ContextSourceView, ToolGrantView,
};
use crate::model::graph::{
    addressable, input_type_text, EdgeView, GraphView, InputType, NodeKind, NodeView,
    WorkflowInputView,
};
use crate::validate::{
    argument_errors, assignees_errors, default_errors, edge_errors, edges_errors, error_if,
    execution_errors, fan_out_errors, graph_errors, has_error_edge, input_errors, inputs_errors,
    knob_errors, known_operation, maps_items, memory_errors, node_errors, nodes_errors,
    on_error_errors, reason_if, repeats_edge, repeats_id, repeats_name, scope_errors,
    sub_workflow_errors, trigger_errors, trigger_ids, EdgeCheck, NodeCheck,
};
use crate::walk::{is_kind, is_path, joined, may_leave, reachable};

verus! {

/// A text that begins with `=` is worked out when a node runs.
pub open spec fn is_worked_out(text: Seq<char>) -> bool {
    text.len() > 0 && text[0] == '='
}

/// An edge leaves the node by a port.
pub open spec fn leaves(g: GraphView, id: Seq<char>, port: Seq<char>) -> bool {
    exists|e: int|
        0 <= e < g.edges.len() && (#[trigger] g.edges[e]).from_node == id && g.edges[e].from_port
            == port
}

/// What a node does with its errors is known, and errors that are routed can
/// leave.
pub open spec fn settles_errors(g: GraphView, node: NodeView) -> bool {
    node.config.text_at("on_error"@) matches Some(policy) ==> {
        ||| policy == "stop"@
        ||| policy == "continue"@
        ||| policy == "route"@ && node.kind != NodeKind::Void && leaves(g, node.id, "error"@)
    }
}

/// A child workflow is given inline or by reference, and not both ways.
pub open spec fn has_one_child(node: NodeView) -> bool {
    node.kind == NodeKind::SubWorkflow ==> {
        let inline = node.config.get("workflow"@) is Some;
        let by_reference = node.config.text_at("workflow_id"@) matches Some(id) && id.len() > 0;
        (inline || by_reference) && !(inline && by_reference)
    }
}

/// The node is of a kind that can run once per item.
pub open spec fn can_map(kind: NodeKind) -> bool {
    kind == NodeKind::Agent || kind == NodeKind::ToolCall || kind == NodeKind::HttpRequest || kind
        == NodeKind::Memory || kind == NodeKind::SubWorkflow
}

/// The node runs once per item: it says so, or does not say otherwise and is of
/// a kind that does.
pub open spec fn runs_per_item(node: NodeView) -> bool {
    ||| node.config.text_at("execution"@) == Some("per_item"@)
    ||| node.config.text_at("execution"@) != Some("once"@) && (node.kind == NodeKind::ToolCall
        || node.kind == NodeKind::HttpRequest || node.kind == NodeKind::Memory)
}

/// The fan-out settings are known, and the node can obey them.
pub open spec fn can_fan_out(node: NodeView) -> bool {
    &&& node.config.get("execution"@) matches Some(mode) ==> can_map(node.kind) && (mode
        == JsonView::String("once"@) || mode == JsonView::String("per_item"@))
    &&& node.config.get("concurrency"@) matches Some(width) ==> runs_per_item(node) && (
    width matches JsonView::Number(NumberView::PosInt(_)) || width == JsonView::String("all"@))
    &&& node.config.get("on_item_error"@) matches Some(policy) ==> runs_per_item(node) && (policy
        == JsonView::String("collect"@) || policy == JsonView::String("fail_fast"@) || policy
        == JsonView::String("skip"@))
}

/// A memory operation is known and has what it needs; one that writes, writes to
/// its own flow.
pub open spec fn remembers_properly(node: NodeView) -> bool {
    node.kind == NodeKind::Memory ==> (node.config.text_at("operation"@) matches Some(operation)
        && {
        let recalls = operation == "recall"@;
        let searches = operation == "search"@;
        let flavours = operation == "flavour"@;
        let remembers = operation == "remember"@;
        let forgets = operation == "forget"@;
        let scope = node.config.text_at("scope"@);
        &&& recalls || searches || flavours || operation == "people"@ || remembers || forgets
        &&& scope is None || scope == Some("user"@) || scope == Some("flow"@) || scope == Some(
            "flows"@,
        )
        &&& recalls ==> scope is Some
        &&& remembers || forgets ==> scope == Some("flow"@)
        &&& recalls || searches ==> node.config.has_text("query"@)
        &&& flavours ==> node.config.has_text("flavour"@)
        &&& remembers || forgets ==> node.config.has_text("key"@)
        &&& remembers ==> node.config.get("value"@) is Some
    })
}

/// A dedup node says by what it tells items apart.
pub open spec fn has_key(node: NodeView) -> bool {
    node.kind == NodeKind::Dedup ==> node.config.has_text("key"@)
}

/// An approval that says who decides names somebody, or leaves it to be worked
/// out.
pub open spec fn names_somebody(node: NodeView) -> bool {
    node.kind == NodeKind::Approval ==> (node.config.get("assignees"@) matches Some(value) ==> {
        ||| value matches JsonView::Array(named) && named.len() > 0
        ||| value matches JsonView::String(text) && is_worked_out(text)
    })
}

/// Some node of the id is a gather.
pub open spec fn gathers(g: GraphView, id: Seq<char>) -> bool {
    exists|k: int|
        0 <= k < g.nodes.len() && (#[trigger] g.nodes[k]).id == id && g.nodes[k].kind
            == NodeKind::Gather
}

/// An edge leads from one id to the other.
pub open spec fn is_step(g: GraphView, from: Seq<char>, to: Seq<char>) -> bool {
    exists|e: int|
        0 <= e < g.edges.len() && (#[trigger] g.edges[e]).from_node == from && g.edges[e].to_node
            == to
}

/// Ids along edges of the graph, that go past no gather.
pub open spec fn is_lane(g: GraphView, path: Seq<Seq<char>>) -> bool {
    &&& path.len() > 0
    &&& forall|i: int|
        0 < i < path.len() ==> is_step(g, path[i - 1], #[trigger] path[i]) && !gathers(
            g,
            path[i - 1],
        )
}

/// A lane leads from the id to a gather.
pub open spec fn is_gathered(g: GraphView, id: Seq<char>) -> bool {
    exists|path: Seq<Seq<char>>|
        #[trigger] is_lane(g, path) && path[0] == id && gathers(g, path.last())
}

/// The id is in a lane of the scatter, after it and before any gather.
pub open spec fn is_inside(g: GraphView, scatter: Seq<char>, id: Seq<char>) -> bool {
    exists|path: Seq<Seq<char>>|
        #[trigger] is_lane(g, path) && path.len() > 1 && path[0] == scatter && path.last() == id
            && !gathers(g, id)
}

/// The lanes of a scatter are gathered, from wherever they lead, and hold no
/// further scatter, no loop and nothing that waits for an approval.
pub open spec fn opens_lanes_properly(g: GraphView, node: NodeView) -> bool {
    node.kind == NodeKind::Scatter ==> {
        &&& is_gathered(g, node.id)
        &&& forall|k: int|
            0 <= k < g.nodes.len() && is_inside(g, node.id, (#[trigger] g.nodes[k]).id) ==> {
                &&& g.nodes[k].kind != NodeKind::Scatter
                &&& g.nodes[k].kind != NodeKind::Loop
                &&& g.nodes[k].config.get("requires_approval"@) != Some(JsonView::Bool(true))
                &&& is_gathered(g, g.nodes[k].id)
            }
    }
}

/// The text under a key is written out, where there is one.
pub open spec fn writes_out(value: JsonView, key: Seq<char>) -> bool {
    value.text_at(key) matches Some(text) ==> !is_worked_out(text)
}

/// What an agent node acts as, may call and recalls from is written out.
pub open spec fn is_written_out(node: NodeView) -> bool {
    node.kind == NodeKind::Agent ==> {
        &&& writes_out(node.config, "agent_ref"@)
        &&& node.config.at("tools"@) matches JsonView::Array(tools) ==> forall|k: int|
            0 <= k < tools.len() ==> writes_out(#[trigger] tools[k], "slug"@) && writes_out(
                tools[k],
                "connection_ref"@,
            )
        &&& node.config.at("context"@) matches JsonView::Array(sources) ==> forall|k: int|
            0 <= k < sources.len() && (#[trigger] sources[k]).text_at("kind"@) == Some("memory"@)
                ==> writes_out(sources[k], "scope"@)
    }
}

/// A node is in order.
pub open spec fn is_proper(g: GraphView, node: NodeView) -> bool {
    &&& settles_errors(g, node)
    &&& has_one_child(node)
    &&& can_fan_out(node)
    &&& remembers_properly(node)
    &&& has_key(node)
    &&& names_somebody(node)
    &&& opens_lanes_properly(g, node)
    &&& is_written_out(node)
}

/// Some node has the id, and is of the kind.
pub open spec fn is_of(g: GraphView, id: Seq<char>, kind: NodeKind) -> bool {
    exists|k: int|
        0 <= k < g.nodes.len() && (#[trigger] g.nodes[k]).id == id && g.nodes[k].kind == kind
}

/// Some node has the id.
pub open spec fn is_there(g: GraphView, id: Seq<char>) -> bool {
    exists|k: int| 0 <= k < g.nodes.len() && (#[trigger] g.nodes[k]).id == id
}

/// An edge is in order: it joins nodes that are there, leaves no sink, and leaves
/// a condition by one of its verdicts.
pub open spec fn joins_properly(g: GraphView, edge: EdgeView) -> bool {
    &&& is_there(g, edge.from_node)
    &&& is_there(g, edge.to_node)
    &&& !is_of(g, edge.from_node, NodeKind::Void)
    &&& is_of(g, edge.from_node, NodeKind::Condition) ==> edge.from_port == "true"@
        || edge.from_port == "false"@
}

/// The name can be addressed: it begins with a letter or an underscore, and goes
/// on with those and digits.
pub open spec fn is_a_name(name: Seq<char>) -> bool {
    &&& name.len() > 0
    &&& !('0' <= name[0] <= '9')
    &&& forall|i: int|
        0 <= i < name.len() ==> ('a' <= #[trigger] name[i] <= 'z' || 'A' <= name[i] <= 'Z' || '0'
            <= name[i] <= '9' || name[i] == '_')
}

/// A value is of a type.
pub open spec fn is_a(value: JsonView, ty: InputType) -> bool {
    &&& ty == InputType::String ==> value is String
    &&& ty == InputType::Number ==> value is Number
    &&& ty == InputType::Boolean ==> value is Bool
    &&& ty == InputType::Array ==> value is Array
    &&& ty == InputType::Object ==> value is Object
}

/// A declared input is in order: it can be addressed, and a default is of its
/// type, and only there where none has to be given.
pub open spec fn asks_properly(input: WorkflowInputView) -> bool {
    &&& is_a_name(input.name)
    &&& input.default matches Some(value) ==> is_a(value, input.ty) && !input.required
}

/// What an agent of the graph may call and recalls from is written out.
pub open spec fn is_defined_properly(agent: AgentDefinitionView) -> bool {
    &&& forall|k: int|
        0 <= k < agent.tools.len() ==> !is_worked_out((#[trigger] agent.tools[k]).slug) && (
        agent.tools[k].connection_ref matches Some(name) ==> !is_worked_out(name))
    &&& forall|k: int|
        0 <= k < agent.context.len() ==> ((
        #[trigger] agent.context[k]).kind matches ContextSourceKindView::Memory { scope, .. }
            ==> !is_worked_out(scope))
}

/// A graph is in order.
pub open spec fn is_sound(g: GraphView) -> bool {
    &&& forall|i: int, k: int|
        0 <= k < i < g.nodes.len() ==> (#[trigger] g.nodes[k]).id != (#[trigger] g.nodes[i]).id
    &&& exists|i: int| 0 <= i < g.nodes.len() && (#[trigger] g.nodes[i]).kind == NodeKind::Trigger
    &&& forall|i: int, k: int|
        0 <= k < i < g.nodes.len() ==> !((#[trigger] g.nodes[k]).kind == NodeKind::Trigger && (
        #[trigger] g.nodes[i]).kind == NodeKind::Trigger)
    &&& forall|i: int| 0 <= i < g.nodes.len() ==> is_proper(g, #[trigger] g.nodes[i])
    &&& forall|e: int| 0 <= e < g.edges.len() ==> joins_properly(g, #[trigger] g.edges[e])
    &&& forall|i: int, k: int|
        0 <= k < i < g.edges.len() ==> #[trigger] g.edges[k] != #[trigger] g.edges[i]
    &&& forall|i: int| 0 <= i < g.inputs.len() ==> asks_properly(#[trigger] g.inputs[i])
    &&& forall|i: int, k: int|
        0 <= k < i < g.inputs.len() ==> (#[trigger] g.inputs[k]).name != (
        #[trigger] g.inputs[i]).name
    &&& forall|i: int| 0 <= i < g.agents.len() ==> is_defined_properly(#[trigger] g.agents[i])
}

proof fn lemma_worked_out(text: Seq<char>)
    ensures
        is_expression(text) == is_worked_out(text),
{
    reveal_strlit("=");
    assert("="@ =~= seq!['=']);
    if is_worked_out(text) {
        assert("="@ =~= text.subrange(0, 1));
    } else if is_expression(text) {
        assert("="@[0] == text.subrange(0, 1)[0]);
    }
}

proof fn lemma_policies()
    ensures
        "stop"@ != "continue"@,
        "stop"@ != "route"@,
        "continue"@ != "route"@,
{
    reveal_strlit("stop");
    reveal_strlit("continue");
    reveal_strlit("route");
    assert("stop"@.len() == 4 && "continue"@.len() == 8 && "route"@.len() == 5);
}

proof fn lemma_on_error(g: GraphView, node: NodeView)
    ensures
        on_error_errors(g, node).len() == 0 <==> settles_errors(g, node),
{
    lemma_policies();
    assert(has_error_edge(g, node.id) == leaves(g, node.id, "error"@));
}

proof fn lemma_sub_workflow(node: NodeView)
    ensures
        sub_workflow_errors(node).len() == 0 <==> has_one_child(node),
{
}

proof fn lemma_modes()
    ensures
        "once"@ != "per_item"@,
{
    reveal_strlit("once");
    reveal_strlit("per_item");
    assert("once"@.len() == 4 && "per_item"@.len() == 8);
}

proof fn lemma_knobs()
    ensures
        "concurrency"@ != "on_item_error"@,
        "concurrency"@ != "collect"@,
        "concurrency"@ != "fail_fast"@,
        "concurrency"@ != "skip"@,
        "concurrency"@ != "all"@,
        "on_item_error"@ != "collect"@,
        "on_item_error"@ != "fail_fast"@,
        "on_item_error"@ != "skip"@,
        "on_item_error"@ != "all"@,
        "collect"@ != "fail_fast"@,
        "collect"@ != "skip"@,
        "collect"@ != "all"@,
        "fail_fast"@ != "skip"@,
        "fail_fast"@ != "all"@,
        "skip"@ != "all"@,
{
    reveal_strlit("concurrency");
    reveal_strlit("on_item_error");
    reveal_strlit("collect");
    reveal_strlit("fail_fast");
    reveal_strlit("skip");
    reveal_strlit("all");
    assert("concurrency"@.len() == 11 && "on_item_error"@.len() == 13 && "collect"@.len() == 7 && "fail_fast"@.len() == 9 && "skip"@.len() == 4 && "all"@.len() == 3);
}

proof fn lemma_fan_out(node: NodeView)
    ensures
        fan_out_errors(node).len() == 0 <==> can_fan_out(node),
{
    lemma_modes();
    lemma_knobs();
    assert(maps_items(node) == runs_per_item(node));
    assert(execution_errors(node).len() == 0 <==> (node.config.get(
        "execution"@,
    ) matches Some(mode) ==> can_map(node.kind) && (mode == JsonView::String("once"@) || mode
        == JsonView::String("per_item"@))));
    assert(knob_errors(node, "concurrency"@).len() == 0 <==> (node.config.get(
        "concurrency"@,
    ) matches Some(width) ==> runs_per_item(node) && (
    width matches JsonView::Number(NumberView::PosInt(_)) || width == JsonView::String("all"@))));
    assert(knob_errors(node, "on_item_error"@).len() == 0 <==> (node.config.get(
        "on_item_error"@,
    ) matches Some(policy) ==> runs_per_item(node) && (policy == JsonView::String("collect"@)
        || policy == JsonView::String("fail_fast"@) || policy == JsonView::String("skip"@))));
}

proof fn lemma_operations()
    ensures
        "recall"@ != "search"@,
        "recall"@ != "flavour"@,
        "recall"@ != "people"@,
        "recall"@ != "remember"@,
        "recall"@ != "forget"@,
        "search"@ != "flavour"@,
        "search"@ != "people"@,
        "search"@ != "remember"@,
        "search"@ != "forget"@,
        "flavour"@ != "people"@,
        "flavour"@ != "remember"@,
        "flavour"@ != "forget"@,
        "people"@ != "remember"@,
        "people"@ != "forget"@,
        "remember"@ != "forget"@,
{
    reveal_strlit("recall");
    reveal_strlit("search");
    reveal_strlit("flavour");
    reveal_strlit("people");
    reveal_strlit("remember");
    reveal_strlit("forget");
    assert("recall"@.len() == 6 && "search"@.len() == 6 && "flavour"@.len() == 7 && "people"@.len() == 6 && "remember"@.len() == 8 && "forget"@.len() == 6);
    assert("recall"@[0] == 'r');
    assert("search"@[0] == 's');
    assert("people"@[0] == 'p');
    assert("forget"@[0] == 'f');
}

proof fn lemma_scopes()
    ensures
        "user"@ != "flow"@,
        "user"@ != "flows"@,
        "flow"@ != "flows"@,
{
    reveal_strlit("user");
    reveal_strlit("flow");
    reveal_strlit("flows");
    assert("user"@.len() == 4 && "flow"@.len() == 4 && "flows"@.len() == 5);
    assert("user"@[0] == 'u');
    assert("flow"@[0] == 'f');
}

proof fn lemma_memory(node: NodeView)
    ensures
        memory_errors(node).len() == 0 <==> remembers_properly(node),
{
    lemma_operations();
    lemma_scopes();
}

proof fn lemma_assignees(node: NodeView)
    ensures
        assignees_errors(node).len() == 0 <==> names_somebody(node),
{
    if let Some(JsonView::String(text)) = node.config.get("assignees"@) {
        lemma_worked_out(text);
    }
}

proof fn lemma_path(g: GraphView, path: Seq<Seq<char>>)
    ensures
        is_path(g, Some(NodeKind::Gather), path) == is_lane(g, path),
{
    let end = Some(NodeKind::Gather);
    if is_path(g, end, path) {
        assert forall|i: int| 0 < i < path.len() implies is_step(
            g,
            path[i - 1],
            #[trigger] path[i],
        ) && !gathers(g, path[i - 1]) by {
            assert(joined(g, path[i - 1], path[i]));
            assert(may_leave(g, end, path[i - 1]));
            assert(!is_kind(g, NodeKind::Gather, path[i - 1]));
        }
    }
    if is_lane(g, path) {
        assert forall|i: int| 0 < i < path.len() implies joined(
            g,
            path[i - 1],
            #[trigger] path[i],
        ) && may_leave(g, end, path[i - 1]) by {
            assert(is_step(g, path[i - 1], path[i]));
            assert(!gathers(g, path[i - 1]));
        }
    }
}

proof fn lemma_collected(g: GraphView, id: Seq<char>)
    ensures
        is_collected(g, id) == is_gathered(g, id),
{
    let end = Some(NodeKind::Gather);
    if is_collected(g, id) {
        let k = choose|k: int|
            0 <= k < g.nodes.len() && (#[trigger] g.nodes[k]).kind == NodeKind::Gather
                && reachable(g, end, id, g.nodes[k].id);
        let path = choose|path: Seq<Seq<char>>|
            #[trigger] is_path(g, end, path) && path[0] == id && path.last()
                == g.nodes[k].id;
        lemma_path(g, path);
        assert(gathers(g, path.last()));
        assert(is_lane(g, path));
    }
    if is_gathered(g, id) {
        let path = choose|path: Seq<Seq<char>>|
            #[trigger] is_lane(g, path) && path[0] == id && gathers(g, path.last());
        lemma_path(g, path);
        let k = choose|k: int|
            0 <= k < g.nodes.len() && (#[trigger] g.nodes[k]).id == path.last() && g.nodes[k].kind
                == NodeKind::Gather;
        assert(is_path(g, end, path));
        assert(reachable(g, end, id, g.nodes[k].id));
        assert(g.nodes[k].kind == NodeKind::Gather);
    }
}

proof fn lemma_inside(g: GraphView, scatter: Seq<char>, id: Seq<char>)
    ensures
        in_lane(g, scatter, id) == is_inside(g, scatter, id),
{
    assert(is_kind(g, NodeKind::Gather, id) == gathers(g, id));
    if in_lane(g, scatter, id) {
        lemma_lane_is_inside(g, scatter, id);
    }
    if is_inside(g, scatter, id) {
        lemma_inside_is_lane(g, scatter, id);
    }
}

proof fn lemma_lane_is_inside(g: GraphView, scatter: Seq<char>, id: Seq<char>)
    requires
        in_lane(g, scatter, id),
    ensures
        is_inside(g, scatter, id),
{
    let end = Some(NodeKind::Gather);
    let j = choose|j: int|
        0 <= j < g.edges.len() && (#[trigger] g.edges[j]).to_node == id && !is_kind(
            g,
            NodeKind::Gather,
            g.edges[j].from_node,
        ) && reachable(g, end, scatter, g.edges[j].from_node);
    let path = choose|path: Seq<Seq<char>>|
        #[trigger] is_path(g, end, path) && path[0] == scatter && path.last()
            == g.edges[j].from_node;
    lemma_path(g, path);
    let longer = path.push(id);
    assert(!gathers(g, path.last()));
    assert(is_step(g, path.last(), id));
    assert forall|i: int| 0 < i < longer.len() implies is_step(
        g,
        longer[i - 1],
        #[trigger] longer[i],
    ) && !gathers(g, longer[i - 1]) by {
        if i < path.len() {
            assert(longer[i] == path[i] && longer[i - 1] == path[i - 1]);
        } else {
            assert(longer[i - 1] == path.last());
        }
    }
    assert(is_lane(g, longer));
    assert(longer.last() == id && longer[0] == scatter && longer.len() > 1);
    assert(!gathers(g, id));
}

proof fn lemma_inside_is_lane(g: GraphView, scatter: Seq<char>, id: Seq<char>)
    requires
        is_inside(g, scatter, id),
    ensures
        in_lane(g, scatter, id),
{
    let end = Some(NodeKind::Gather);
    let path = choose|path: Seq<Seq<char>>|
        #[trigger] is_lane(g, path) && path.len() > 1 && path[0] == scatter && path.last() == id
            && !gathers(g, id);
    let last = path.len() - 1;
    assert(is_step(g, path[last - 1], path[last]));
    let e = choose|e: int|
        0 <= e < g.edges.len() && (#[trigger] g.edges[e]).from_node == path[last - 1]
            && g.edges[e].to_node == path[last];
    let shorter = path.drop_last();
    assert forall|i: int| 0 < i < shorter.len() implies is_step(
        g,
        shorter[i - 1],
        #[trigger] shorter[i],
    ) && !gathers(g, shorter[i - 1]) by {
        assert(shorter[i] == path[i] && shorter[i - 1] == path[i - 1]);
    }
    assert(is_lane(g, shorter));
    lemma_path(g, shorter);
    assert(shorter.last() == g.edges[e].from_node && shorter[0] == scatter);
    assert(is_path(g, end, shorter));
    assert(reachable(g, end, scatter, g.edges[e].from_node));
    assert(!gathers(g, path[last - 1]));
    assert(!is_kind(g, NodeKind::Gather, g.edges[e].from_node));
    assert(!is_kind(g, NodeKind::Gather, id));
}

/// A node that stands in a lane as it may.
spec fn fits_lane(g: GraphView, scatter: NodeView, node: NodeView) -> bool {
    is_inside(g, scatter.id, node.id) ==> {
        &&& node.kind != NodeKind::Scatter
        &&& node.kind != NodeKind::Loop
        &&& node.config.get("requires_approval"@) != Some(JsonView::Bool(true))
        &&& is_gathered(g, node.id)
    }
}

proof fn lemma_members(g: GraphView, scatter: NodeView, n: nat)
    requires
        n <= g.nodes.len(),
        is_collected(g, scatter.id),
    ensures
        members_errors(g, scatter, n).len() == 0 <==> forall|k: int|
            0 <= k < n ==> fits_lane(g, scatter, #[trigger] g.nodes[k]),
    decreases n,
{
    if n > 0 {
        lemma_members(g, scatter, (n - 1) as nat);
        let node = g.nodes[n - 1];
        lemma_inside(g, scatter.id, node.id);
        lemma_collected(g, node.id);
        assert(member_errors(g, scatter, node).len() == 0 <==> fits_lane(g, scatter, node));
    }
}

proof fn lemma_lanes(g: GraphView, node: NodeView)
    ensures
        lane_errors(g, node).len() == 0 <==> opens_lanes_properly(g, node),
{
    if node.kind == NodeKind::Scatter {
        lemma_collected(g, node.id);
        if is_collected(g, node.id) {
            lemma_members(g, node, g.nodes.len());
            if opens_lanes_properly(g, node) {
                assert forall|k: int| 0 <= k < g.nodes.len() implies fits_lane(
                    g,
                    node,
                    #[trigger] g.nodes[k],
                ) by {}
            }
            if lane_errors(g, node).len() == 0 {
                assert forall|k: int|
                    0 <= k < g.nodes.len() && is_inside(
                        g,
                        node.id,
                        (#[trigger] g.nodes[k]).id,
                    ) implies g.nodes[k].kind != NodeKind::Scatter && g.nodes[k].kind
                    != NodeKind::Loop && g.nodes[k].config.get("requires_approval"@) != Some(
                    JsonView::Bool(true),
                ) && is_gathered(g, g.nodes[k].id) by {
                    assert(fits_lane(g, node, g.nodes[k]));
                }
            }
        }
    }
}

proof fn lemma_offers(tools: Seq<JsonView>, n: nat)
    requires
        n <= tools.len(),
    ensures
        offers_reasons(tools, n).len() == 0 <==> forall|k: int|
            0 <= k < n ==> writes_out(#[trigger] tools[k], "slug"@) && writes_out(
                tools[k],
                "connection_ref"@,
            ),
    decreases n,
{
    if n > 0 {
        lemma_offers(tools, (n - 1) as nat);
        lemma_worked_out(tools[n - 1].text_or_empty("slug"@));
        lemma_worked_out(tools[n - 1].text_or_empty("connection_ref"@));
    }
}

proof fn lemma_blocks(sources: Seq<JsonView>, n: nat)
    requires
        n <= sources.len(),
    ensures
        blocks_reasons(sources, n).len() == 0 <==> forall|k: int|
            0 <= k < n && (#[trigger] sources[k]).text_at("kind"@) == Some("memory"@)
                ==> writes_out(sources[k], "scope"@),
    decreases n,
{
    if n > 0 {
        lemma_blocks(sources, (n - 1) as nat);
        lemma_worked_out(sources[n - 1].text_or_empty("scope"@));
    }
}

proof fn lemma_literals(node: NodeView)
    ensures
        literal_errors(node).len() == 0 <==> is_written_out(node),
{
    lemma_worked_out(node.config.text_or_empty("agent_ref"@));
    let tools = items_at(node.config, "tools"@);
    let sources = items_at(node.config, "context"@);
    lemma_offers(tools, tools.len());
    lemma_blocks(sources, sources.len());
}

proof fn lemma_grants(grants: Seq<ToolGrantView>, n: nat)
    requires
        n <= grants.len(),
    ensures
        grants_reasons(grants, n).len() == 0 <==> forall|k: int|
            0 <= k < n ==> !is_worked_out((#[trigger] grants[k]).slug) && (
            grants[k].connection_ref matches Some(name) ==> !is_worked_out(name)),
    decreases n,
{
    if n > 0 {
        lemma_grants(grants, (n - 1) as nat);
        lemma_worked_out(grants[n - 1].slug);
        if let Some(name) = grants[n - 1].connection_ref {
            lemma_worked_out(name);
        }
    }
}

proof fn lemma_sources(sources: Seq<ContextSourceView>, n: nat)
    requires
        n <= sources.len(),
    ensures
        sources_reasons(sources, n).len() == 0 <==> forall|k: int|
            0 <= k < n ==> ((#[trigger] sources[k]).kind matches ContextSourceKindView::Memory {
                scope,
                ..
            } ==> !is_worked_out(scope)),
    decreases n,
{
    if n > 0 {
        lemma_sources(sources, (n - 1) as nat);
        if let ContextSourceKindView::Memory { scope, .. } = sources[n - 1].kind {
            lemma_worked_out(scope);
        }
    }
}

proof fn lemma_agents(g: GraphView, n: nat)
    requires
        n <= g.agents.len(),
    ensures
        agents_errors(g, n).len() == 0 <==> forall|k: int|
            0 <= k < n ==> is_defined_properly(#[trigger] g.agents[k]),
    decreases n,
{
    if n > 0 {
        lemma_agents(g, (n - 1) as nat);
        let agent = g.agents[n - 1];
        lemma_grants(agent.tools, agent.tools.len());
        lemma_sources(agent.context, agent.context.len());
        assert(definition_errors(agent).len() == 0 <==> is_defined_properly(agent));
    }
}

proof fn lemma_node_parts(check: NodeCheck, g: GraphView, n: nat)
    requires
        n <= g.nodes.len(),
    ensures
        nodes_errors(check, g, n).len() == 0 <==> forall|i: int|
            0 <= i < n ==> (#[trigger] node_errors(check, g, i)).len() == 0,
    decreases n,
{
    if n > 0 {
        lemma_node_parts(check, g, (n - 1) as nat);
    }
}

proof fn lemma_edge_parts(check: EdgeCheck, g: GraphView, n: nat)
    requires
        n <= g.edges.len(),
    ensures
        edges_errors(check, g, n).len() == 0 <==> forall|i: int|
            0 <= i < n ==> (#[trigger] edge_errors(check, g, i)).len() == 0,
    decreases n,
{
    if n > 0 {
        lemma_edge_parts(check, g, (n - 1) as nat);
    }
}

proof fn lemma_input_parts(g: GraphView, n: nat)
    requires
        n <= g.inputs.len(),
    ensures
        inputs_errors(g, n).len() == 0 <==> forall|i: int|
            0 <= i < n ==> (#[trigger] input_errors(g, i)).len() == 0,
    decreases n,
{
    if n > 0 {
        lemma_input_parts(g, (n - 1) as nat);
    }
}

proof fn lemma_parts(g: GraphView)
    ensures
        graph_errors(g).len() == 0 <==> {
            &&& nodes_errors(NodeCheck::UniqueId, g, g.nodes.len()).len() == 0
            &&& trigger_errors(g).len() == 0
            &&& edges_errors(EdgeCheck::Integrity, g, g.edges.len()).len() == 0
            &&& nodes_errors(NodeCheck::OnError, g, g.nodes.len()).len() == 0
            &&& nodes_errors(NodeCheck::SubWorkflow, g, g.nodes.len()).len() == 0
            &&& nodes_errors(NodeCheck::FanOut, g, g.nodes.len()).len() == 0
            &&& nodes_errors(NodeCheck::Memory, g, g.nodes.len()).len() == 0
            &&& nodes_errors(NodeCheck::Dedup, g, g.nodes.len()).len() == 0
            &&& nodes_errors(NodeCheck::Assignees, g, g.nodes.len()).len() == 0
            &&& edges_errors(EdgeCheck::VoidSink, g, g.edges.len()).len() == 0
            &&& edges_errors(EdgeCheck::ConditionRouting, g, g.edges.len()).len() == 0
            &&& nodes_errors(NodeCheck::Lanes, g, g.nodes.len()).len() == 0
            &&& inputs_errors(g, g.inputs.len()).len() == 0
            &&& nodes_errors(NodeCheck::Literals, g, g.nodes.len()).len() == 0
            &&& agents_errors(g, g.agents.len()).len() == 0
        },
{
}

proof fn lemma_trigger_ids(g: GraphView, n: nat)
    requires
        n <= g.nodes.len(),
    ensures
        trigger_ids(g, n).len() == 0 <==> forall|i: int|
            0 <= i < n ==> (#[trigger] g.nodes[i]).kind != NodeKind::Trigger,
        trigger_ids(g, n).len() <= 1 <==> forall|i: int, k: int|
            0 <= k < i < n ==> !((#[trigger] g.nodes[k]).kind == NodeKind::Trigger && (
            #[trigger] g.nodes[i]).kind == NodeKind::Trigger),
    decreases n,
{
    if n > 0 {
        lemma_trigger_ids(g, (n - 1) as nat);
        if g.nodes[n - 1].kind == NodeKind::Trigger && trigger_ids(g, (n - 1) as nat).len() > 0 {
            let k = choose|k: int|
                0 <= k < n - 1 && (#[trigger] g.nodes[k]).kind == NodeKind::Trigger;
            assert(g.nodes[k].kind == NodeKind::Trigger && g.nodes[n - 1].kind
                == NodeKind::Trigger);
        }
    }
}

proof fn lemma_node_checks(g: GraphView, i: int)
    requires
        0 <= i < g.nodes.len(),
    ensures
        is_proper(g, g.nodes[i]) <==> {
            &&& node_errors(NodeCheck::OnError, g, i).len() == 0
            &&& node_errors(NodeCheck::SubWorkflow, g, i).len() == 0
            &&& node_errors(NodeCheck::FanOut, g, i).len() == 0
            &&& node_errors(NodeCheck::Memory, g, i).len() == 0
            &&& node_errors(NodeCheck::Dedup, g, i).len() == 0
            &&& node_errors(NodeCheck::Assignees, g, i).len() == 0
            &&& node_errors(NodeCheck::Lanes, g, i).len() == 0
            &&& node_errors(NodeCheck::Literals, g, i).len() == 0
        },
{
    let node = g.nodes[i];
    lemma_on_error(g, node);
    lemma_sub_workflow(node);
    lemma_fan_out(node);
    lemma_memory(node);
    lemma_assignees(node);
    lemma_lanes(g, node);
    lemma_literals(node);
}

proof fn lemma_edge_checks(g: GraphView, e: int)
    requires
        0 <= e < g.edges.len(),
    ensures
        joins_properly(g, g.edges[e]) && (forall|k: int|
            0 <= k < e ==> #[trigger] g.edges[k] != g.edges[e]) <==> {
            &&& edge_errors(EdgeCheck::Integrity, g, e).len() == 0
            &&& edge_errors(EdgeCheck::VoidSink, g, e).len() == 0
            &&& edge_errors(EdgeCheck::ConditionRouting, g, e).len() == 0
        },
{
    let edge = g.edges[e];
    assert(g.has_node(edge.from_node) == is_there(g, edge.from_node));
    assert(g.has_node(edge.to_node) == is_there(g, edge.to_node));
    assert(is_kind(g, NodeKind::Void, edge.from_node) == is_of(
        g,
        edge.from_node,
        NodeKind::Void,
    ));
    assert(is_kind(g, NodeKind::Condition, edge.from_node) == is_of(
        g,
        edge.from_node,
        NodeKind::Condition,
    ));
    assert(repeats_edge(g, e) == !(forall|k: int|
        0 <= k < e ==> #[trigger] g.edges[k] != g.edges[e]));
}

proof fn lemma_input_checks(g: GraphView, i: int)
    requires
        0 <= i < g.inputs.len(),
    ensures
        asks_properly(g.inputs[i]) && (forall|k: int|
            0 <= k < i ==> (#[trigger] g.inputs[k]).name != g.inputs[i].name) <==> input_errors(
            g,
            i,
        ).len() == 0,
{
    let input = g.inputs[i];
    assert(addressable(input.name) == is_a_name(input.name));
    assert(repeats_name(g, i) == !(forall|k: int|
        0 <= k < i ==> (#[trigger] g.inputs[k]).name != g.inputs[i].name));
}

/// A graph validates exactly where it is in order.
pub proof fn sound_graphs_validate(g: GraphView)
    ensures
        graph_errors(g).len() == 0 <==> is_sound(g),
{
    lemma_parts(g);
    lemma_node_parts(NodeCheck::UniqueId, g, g.nodes.len());
    lemma_node_parts(NodeCheck::OnError, g, g.nodes.len());
    lemma_node_parts(NodeCheck::SubWorkflow, g, g.nodes.len());
    lemma_node_parts(NodeCheck::FanOut, g, g.nodes.len());
    lemma_node_parts(NodeCheck::Memory, g, g.nodes.len());
    lemma_node_parts(NodeCheck::Dedup, g, g.nodes.len());
    lemma_node_parts(NodeCheck::Assignees, g, g.nodes.len());
    lemma_node_parts(NodeCheck::Lanes, g, g.nodes.len());
    lemma_node_parts(NodeCheck::Literals, g, g.nodes.len());
    lemma_edge_parts(EdgeCheck::Integrity, g, g.edges.len());
    lemma_edge_parts(EdgeCheck::VoidSink, g, g.edges.len());
    lemma_edge_parts(EdgeCheck::ConditionRouting, g, g.edges.len());
    lemma_input_parts(g, g.inputs.len());
    lemma_agents(g, g.agents.len());
    lemma_trigger_ids(g, g.nodes.len());
    if graph_errors(g).len() == 0 {
        assert forall|i: int, k: int| 0 <= k < i < g.nodes.len() implies (
        #[trigger] g.nodes[k]).id != (#[trigger] g.nodes[i]).id by {
            assert(node_errors(NodeCheck::UniqueId, g, i).len() == 0);
        }
        assert forall|i: int| 0 <= i < g.nodes.len() implies is_proper(g, #[trigger] g.nodes[i]) by {
            lemma_node_checks(g, i);
        }
        assert forall|e: int| 0 <= e < g.edges.len() implies joins_properly(
            g,
            #[trigger] g.edges[e],
        ) by {
            lemma_edge_checks(g, e);
        }
        assert forall|i: int, k: int| 0 <= k < i < g.edges.len() implies #[trigger] g.edges[k]
            != #[trigger] g.edges[i] by {
            lemma_edge_checks(g, i);
        }
        assert forall|i: int| 0 <= i < g.inputs.len() implies asks_properly(
            #[trigger] g.inputs[i],
        ) by {
            lemma_input_checks(g, i);
        }
        assert forall|i: int, k: int| 0 <= k < i < g.inputs.len() implies (
        #[trigger] g.inputs[k]).name != (#[trigger] g.inputs[i]).name by {
            lemma_input_checks(g, i);
        }
    }
    if is_sound(g) {
        assert forall|i: int| 0 <= i < g.nodes.len() implies (#[trigger] node_errors(
            NodeCheck::UniqueId,
            g,
            i,
        )).len() == 0 by {
            assert(!repeats_id(g, i));
        }
        assert forall|i: int| 0 <= i < g.nodes.len() implies #[trigger] node_errors(
            NodeCheck::OnError,
            g,
            i,
        ).len() == 0 by {
            assert(is_proper(g, g.nodes[i]));
            lemma_node_checks(g, i);
        }
        assert forall|i: int| 0 <= i < g.nodes.len() implies #[trigger] node_errors(
            NodeCheck::SubWorkflow,
            g,
            i,
        ).len() == 0 by {
            assert(is_proper(g, g.nodes[i]));
            lemma_node_checks(g, i);
        }
        assert forall|i: int| 0 <= i < g.nodes.len() implies #[trigger] node_errors(
            NodeCheck::FanOut,
            g,
            i,
        ).len() == 0 by {
            assert(is_proper(g, g.nodes[i]));
            lemma_node_checks(g, i);
        }
        assert forall|i: int| 0 <= i < g.nodes.len() implies #[trigger] node_errors(
            NodeCheck::Memory,
            g,
            i,
        ).len() == 0 by {
            assert(is_proper(g, g.nodes[i]));
            lemma_node_checks(g, i);
        }
        assert forall|i: int| 0 <= i < g.nodes.len() implies #[trigger] node_errors(
            NodeCheck::Dedup,
            g,
            i,
        ).len() == 0 by {
            assert(is_proper(g, g.nodes[i]));
            lemma_node_checks(g, i);
        }
        assert forall|i: int| 0 <= i < g.nodes.len() implies #[trigger] node_errors(
            NodeCheck::Assignees,
            g,
            i,
        ).len() == 0 by {
            assert(is_proper(g, g.nodes[i]));
            lemma_node_checks(g, i);
        }
        assert forall|i: int| 0 <= i < g.nodes.len() implies #[trigger] node_errors(
            NodeCheck::Lanes,
            g,
            i,
        ).len() == 0 by {
            assert(is_proper(g, g.nodes[i]));
            lemma_node_checks(g, i);
        }
        assert forall|i: int| 0 <= i < g.nodes.len() implies #[trigger] node_errors(
            NodeCheck::Literals,
            g,
            i,
        ).len() == 0 by {
            assert(is_proper(g, g.nodes[i]));
            lemma_node_checks(g, i);
        }
        assert forall|e: int| 0 <= e < g.edges.len() implies #[trigger] edge_errors(
            EdgeCheck::Integrity,
            g,
            e,
        ).len() == 0 by {
            assert(joins_properly(g, g.edges[e]));
            lemma_edge_checks(g, e);
        }
        assert forall|e: int| 0 <= e < g.edges.len() implies #[trigger] edge_errors(
            EdgeCheck::VoidSink,
            g,
            e,
        ).len() == 0 by {
            assert(joins_properly(g, g.edges[e]));
            lemma_edge_checks(g, e);
        }
        assert forall|e: int| 0 <= e < g.edges.len() implies #[trigger] edge_errors(
            EdgeCheck::ConditionRouting,
            g,
            e,
        ).len() == 0 by {
            assert(joins_properly(g, g.edges[e]));
            lemma_edge_checks(g, e);
        }
        assert forall|i: int| 0 <= i < g.inputs.len() implies #[trigger] input_errors(
            g,
            i,
        ).len() == 0 by {
            assert(asks_properly(g.inputs[i]));
            lemma_input_checks(g, i);
        }
        assert(trigger_ids(g, g.nodes.len()).len() == 1);
    }
}

/// Each check reports the nodes that it is for, and no others.
pub proof fn checks_report_what_they_are_for(g: GraphView, i: int)
    requires
        0 <= i < g.nodes.len(),
    ensures
        node_errors(NodeCheck::OnError, g, i).len() == 0 <==> settles_errors(g, g.nodes[i]),
        node_errors(NodeCheck::SubWorkflow, g, i).len() == 0 <==> has_one_child(g.nodes[i]),
        node_errors(NodeCheck::FanOut, g, i).len() == 0 <==> can_fan_out(g.nodes[i]),
        node_errors(NodeCheck::Memory, g, i).len() == 0 <==> remembers_properly(g.nodes[i]),
        node_errors(NodeCheck::Dedup, g, i).len() == 0 <==> has_key(g.nodes[i]),
        node_errors(NodeCheck::Assignees, g, i).len() == 0 <==> names_somebody(g.nodes[i]),
        node_errors(NodeCheck::Lanes, g, i).len() == 0 <==> opens_lanes_properly(g, g.nodes[i]),
        node_errors(NodeCheck::Literals, g, i).len() == 0 <==> is_written_out(g.nodes[i]),
{
    let node = g.nodes[i];
    lemma_on_error(g, node);
    lemma_sub_workflow(node);
    lemma_fan_out(node);
    lemma_memory(node);
    lemma_assignees(node);
    lemma_lanes(g, node);
    lemma_literals(node);
}

proof fn lemma_either(a: Seq<ErrorView>, b: Seq<ErrorView>, e: ErrorView)
    ensures
        (a + b).contains(e) <==> a.contains(e) || b.contains(e),
{
    if a.contains(e) {
        let i = choose|i: int| 0 <= i < a.len() && a[i] == e;
        assert((a + b)[i] == e);
    }
    if b.contains(e) {
        let i = choose|i: int| 0 <= i < b.len() && b[i] == e;
        assert((a + b)[a.len() + i] == e);
    }
    if (a + b).contains(e) {
        let i = choose|i: int| 0 <= i < (a + b).len() && (a + b)[i] == e;
        if i < a.len() {
            assert(a[i] == e);
        } else {
            assert(b[i - a.len()] == e);
        }
    }
}

proof fn lemma_reported(g: GraphView, e: ErrorView)
    ensures
        graph_errors(g).contains(e) <==> {
            ||| nodes_errors(NodeCheck::UniqueId, g, g.nodes.len()).contains(e)
            ||| trigger_errors(g).contains(e)
            ||| edges_errors(EdgeCheck::Integrity, g, g.edges.len()).contains(e)
            ||| nodes_errors(NodeCheck::OnError, g, g.nodes.len()).contains(e)
            ||| nodes_errors(NodeCheck::SubWorkflow, g, g.nodes.len()).contains(e)
            ||| nodes_errors(NodeCheck::FanOut, g, g.nodes.len()).contains(e)
            ||| nodes_errors(NodeCheck::Memory, g, g.nodes.len()).contains(e)
            ||| nodes_errors(NodeCheck::Dedup, g, g.nodes.len()).contains(e)
            ||| nodes_errors(NodeCheck::Assignees, g, g.nodes.len()).contains(e)
            ||| edges_errors(EdgeCheck::VoidSink, g, g.edges.len()).contains(e)
            ||| edges_errors(EdgeCheck::ConditionRouting, g, g.edges.len()).contains(e)
            ||| nodes_errors(NodeCheck::Lanes, g, g.nodes.len()).contains(e)
            ||| inputs_errors(g, g.inputs.len()).contains(e)
            ||| nodes_errors(NodeCheck::Literals, g, g.nodes.len()).contains(e)
            ||| agents_errors(g, g.agents.len()).contains(e)
        },
{
    let p0 = nodes_errors(NodeCheck::UniqueId, g, g.nodes.len());
    let p1 = trigger_errors(g);
    let p2 = edges_errors(EdgeCheck::Integrity, g, g.edges.len());
    let p3 = nodes_errors(NodeCheck::OnError, g, g.nodes.len());
    let p4 = nodes_errors(NodeCheck::SubWorkflow, g, g.nodes.len());
    let p5 = nodes_errors(NodeCheck::FanOut, g, g.nodes.len());
    let p6 = nodes_errors(NodeCheck::Memory, g, g.nodes.len());
    let p7 = nodes_errors(NodeCheck::Dedup, g, g.nodes.len());
    let p8 = nodes_errors(NodeCheck::Assignees, g, g.nodes.len());
    let p9 = edges_errors(EdgeCheck::VoidSink, g, g.edges.len());
    let p10 = edges_errors(EdgeCheck::ConditionRouting, g, g.edges.len());
    let p11 = nodes_errors(NodeCheck::Lanes, g, g.nodes.len());
    let p12 = inputs_errors(g, g.inputs.len());
    let p13 = nodes_errors(NodeCheck::Literals, g, g.nodes.len());
    let p14 = agents_errors(g, g.agents.len());
    lemma_either(p0, p1, e);
    lemma_either(p0 + p1, p2, e);
    lemma_either(p0 + p1 + p2, p3, e);
    lemma_either(p0 + p1 + p2 + p3, p4, e);
    lemma_either(p0 + p1 + p2 + p3 + p4, p5, e);
    lemma_either(p0 + p1 + p2 + p3 + p4 + p5, p6, e);
    lemma_either(p0 + p1 + p2 + p3 + p4 + p5 + p6, p7, e);
    lemma_either(p0 + p1 + p2 + p3 + p4 + p5 + p6 + p7, p8, e);
    lemma_either(p0 + p1 + p2 + p3 + p4 + p5 + p6 + p7 + p8, p9, e);
    lemma_either(p0 + p1 + p2 + p3 + p4 + p5 + p6 + p7 + p8 + p9, p10, e);
    lemma_either(p0 + p1 + p2 + p3 + p4 + p5 + p6 + p7 + p8 + p9 + p10, p11, e);
    lemma_either(p0 + p1 + p2 + p3 + p4 + p5 + p6 + p7 + p8 + p9 + p10 + p11, p12, e);
    lemma_either(p0 + p1 + p2 + p3 + p4 + p5 + p6 + p7 + p8 + p9 + p10 + p11 + p12, p13, e);
    lemma_either(p0 + p1 + p2 + p3 + p4 + p5 + p6 + p7 + p8 + p9 + p10 + p11 + p12 + p13, p14, e);
    assert(graph_errors(g) == p0 + p1 + p2 + p3 + p4 + p5 + p6 + p7 + p8 + p9 + p10 + p11 + p12 + p13 + p14);
}

proof fn lemma_nodes_report(check: NodeCheck, g: GraphView, n: nat, e: ErrorView)
    requires
        n <= g.nodes.len(),
    ensures
        nodes_errors(check, g, n).contains(e) <==> exists|i: int|
            0 <= i < n && (#[trigger] node_errors(check, g, i)).contains(e),
    decreases n,
{
    if n > 0 {
        lemma_nodes_report(check, g, (n - 1) as nat, e);
        lemma_either(nodes_errors(check, g, (n - 1) as nat), node_errors(check, g, n - 1), e);
    }
}

proof fn lemma_edges_report(check: EdgeCheck, g: GraphView, n: nat, e: ErrorView)
    requires
        n <= g.edges.len(),
    ensures
        edges_errors(check, g, n).contains(e) <==> exists|i: int|
            0 <= i < n && (#[trigger] edge_errors(check, g, i)).contains(e),
    decreases n,
{
    if n > 0 {
        lemma_edges_report(check, g, (n - 1) as nat, e);
        lemma_either(edges_errors(check, g, (n - 1) as nat), edge_errors(check, g, n - 1), e);
    }
}

proof fn lemma_inputs_report(g: GraphView, n: nat, e: ErrorView)
    requires
        n <= g.inputs.len(),
    ensures
        inputs_errors(g, n).contains(e) <==> exists|i: int|
            0 <= i < n && (#[trigger] input_errors(g, i)).contains(e),
    decreases n,
{
    if n > 0 {
        lemma_inputs_report(g, (n - 1) as nat, e);
        lemma_either(inputs_errors(g, (n - 1) as nat), input_errors(g, n - 1), e);
    }
}

proof fn lemma_agents_report(g: GraphView, n: nat, e: ErrorView)
    requires
        n <= g.agents.len(),
    ensures
        agents_errors(g, n).contains(e) <==> exists|i: int|
            0 <= i < n && (#[trigger] definition_errors(g.agents[i])).contains(e),
    decreases n,
{
    if n > 0 {
        lemma_agents_report(g, (n - 1) as nat, e);
        lemma_either(agents_errors(g, (n - 1) as nat), definition_errors(g.agents[n - 1]), e);
        if definition_errors(g.agents[n - 1]).contains(e) {
            assert(definition_errors(g.agents[n - 1]).contains(e));
        }
    }
}

/// Every problem names the thing that has it: what a check finds wrong with a
/// node is said of that node, and so with edges, inputs and agents.
proof fn lemma_node_problems(check: NodeCheck, g: GraphView, i: int, e: ErrorView)
    requires
        0 <= i < g.nodes.len(),
        node_errors(check, g, i).contains(e),
    ensures
        match check {
            NodeCheck::UniqueId => e == ErrorView::DuplicateNodeId(g.nodes[i].id),
            NodeCheck::OnError => {
                ||| e == ErrorView::MissingErrorRoute(g.nodes[i].id) && g.nodes[i].config.text_at(
                    "on_error"@,
                ) == Some("route"@) && g.nodes[i].kind != NodeKind::Void && !leaves(
                    g,
                    g.nodes[i].id,
                    "error"@,
                )
                ||| e matches ErrorView::InvalidOnError { node, value } && node == g.nodes[i].id
                    && g.nodes[i].config.text_at("on_error"@) == Some(value)
                ||| e matches ErrorView::InvalidNodeConfig { node, .. } && node == g.nodes[i].id
            },
            NodeCheck::Lanes => e matches ErrorView::InvalidNodeConfig { node, .. } && is_there(
                g,
                node,
            ),
            _ => e matches ErrorView::InvalidNodeConfig { node, .. } && node == g.nodes[i].id,
        },
{
    let node = g.nodes[i];
    match check {
        NodeCheck::Lanes => {
            assert(g.nodes[i].id == node.id);
            lemma_lane_problems(g, node, e);
        },
        NodeCheck::OnError => {
            assert(has_error_edge(g, node.id) == leaves(g, node.id, "error"@));
        },
        NodeCheck::FanOut => {
            lemma_fan_out_problems(node, e);
        },
        NodeCheck::Memory => {
            lemma_memory_problems(node, e);
        },
        _ => {},
    }
}

proof fn lemma_fan_out_problems(node: NodeView, e: ErrorView)
    requires
        fan_out_errors(node).contains(e),
    ensures
        e matches ErrorView::InvalidNodeConfig { node: id, .. } && id == node.id,
{
    let a = execution_errors(node);
    let b = knob_errors(node, "concurrency"@);
    let c = knob_errors(node, "on_item_error"@);
    lemma_either(a + b, c, e);
    lemma_either(a, b, e);
}

proof fn lemma_memory_problems(node: NodeView, e: ErrorView)
    requires
        memory_errors(node).contains(e),
    ensures
        e matches ErrorView::InvalidNodeConfig { node: id, .. } && id == node.id,
{
    if let Some(operation) = node.config.text_at("operation"@) {
        if known_operation(operation) {
            lemma_either(
                scope_errors(node, operation),
                argument_errors(node, operation),
                e,
            );
        }
    }
}

proof fn lemma_members_problems(g: GraphView, scatter: NodeView, n: nat, e: ErrorView)
    requires
        n <= g.nodes.len(),
        members_errors(g, scatter, n).contains(e),
    ensures
        e matches ErrorView::InvalidNodeConfig { node, .. } && is_there(g, node),
    decreases n,
{
    if n > 0 {
        lemma_either(
            members_errors(g, scatter, (n - 1) as nat),
            member_errors(g, scatter, g.nodes[n - 1]),
            e,
        );
        if members_errors(g, scatter, (n - 1) as nat).contains(e) {
            lemma_members_problems(g, scatter, (n - 1) as nat, e);
        } else {
            assert(g.nodes[n - 1].id == g.nodes[n - 1].id);
            assert(is_there(g, g.nodes[n - 1].id));
        }
    }
}

proof fn lemma_lane_problems(g: GraphView, node: NodeView, e: ErrorView)
    requires
        lane_errors(g, node).contains(e),
        is_there(g, node.id),
    ensures
        e matches ErrorView::InvalidNodeConfig { node: id, .. } && is_there(g, id),
{
    if node.kind == NodeKind::Scatter {
        let first = reason_if(
            !is_collected(g, node.id),
            node,
            uncollected_reason(),
        );
        let rest = members_errors(g, node, g.nodes.len());
        lemma_either(first, rest, e);
        if rest.contains(e) {
            lemma_members_problems(g, node, g.nodes.len(), e);
        }
    }
}

/// An id is reported as taken exactly where two nodes have it; a graph is said to
/// have no trigger exactly where it has none; and an end of an edge is reported
/// as unknown exactly where no node has its id.
pub proof fn structure_is_reported_as_it_is(g: GraphView, id: Seq<char>)
    ensures
        graph_errors(g).contains(ErrorView::DuplicateNodeId(id)) <==> exists|i: int, k: int|
            0 <= k < i < g.nodes.len() && (#[trigger] g.nodes[k]).id == id && (
            #[trigger] g.nodes[i]).id == id,
        graph_errors(g).contains(ErrorView::MissingTrigger) <==> forall|i: int|
            0 <= i < g.nodes.len() ==> (#[trigger] g.nodes[i]).kind != NodeKind::Trigger,
        graph_errors(g).contains(ErrorView::UnknownNode(id)) <==> !is_there(g, id) && exists|
            i: int,
        |
            0 <= i < g.edges.len() && ((#[trigger] g.edges[i]).from_node == id
                || g.edges[i].to_node == id),
{
    let taken = ErrorView::DuplicateNodeId(id);
    let missing = ErrorView::MissingTrigger;
    let unknown = ErrorView::UnknownNode(id);
    lemma_only(g, taken);
    lemma_only(g, missing);
    lemma_only(g, unknown);
    lemma_nodes_report(NodeCheck::UniqueId, g, g.nodes.len(), taken);
    lemma_edges_report(EdgeCheck::Integrity, g, g.edges.len(), unknown);
    lemma_trigger_ids(g, g.nodes.len());
    if graph_errors(g).contains(taken) {
        let i = choose|i: int|
            0 <= i < g.nodes.len() && (#[trigger] node_errors(
                NodeCheck::UniqueId,
                g,
                i,
            )).contains(taken);
        lemma_node_problems(NodeCheck::UniqueId, g, i, taken);
        assert(repeats_id(g, i));
    }
    if exists|i: int, k: int|
        0 <= k < i < g.nodes.len() && (#[trigger] g.nodes[k]).id == id && (
        #[trigger] g.nodes[i]).id == id {
        let (i, k) = choose|i: int, k: int|
            0 <= k < i < g.nodes.len() && (#[trigger] g.nodes[k]).id == id && (
            #[trigger] g.nodes[i]).id == id;
        assert(repeats_id(g, i));
        assert(node_errors(NodeCheck::UniqueId, g, i)[0] == taken);
        assert(node_errors(NodeCheck::UniqueId, g, i).contains(taken));
    }
    if trigger_errors(g).len() > 0 {
        assert(trigger_errors(g)[0] == trigger_errors(g)[0]);
    }
    assert(g.has_node(id) == is_there(g, id));
    assert forall|i: int| 0 <= i < g.edges.len() implies ((#[trigger] edge_errors(
        EdgeCheck::Integrity,
        g,
        i,
    )).contains(unknown) <==> !is_there(g, id) && (g.edges[i].from_node == id
        || g.edges[i].to_node == id)) by {
        lemma_ends(g, i, id);
    }
    if !is_there(g, id) && exists|i: int|
        0 <= i < g.edges.len() && ((#[trigger] g.edges[i]).from_node == id || g.edges[i].to_node
            == id) {
        let i = choose|i: int|
            0 <= i < g.edges.len() && ((#[trigger] g.edges[i]).from_node == id
                || g.edges[i].to_node == id);
        assert(edge_errors(EdgeCheck::Integrity, g, i).contains(unknown));
    }
}

proof fn lemma_ends(g: GraphView, i: int, id: Seq<char>)
    requires
        0 <= i < g.edges.len(),
    ensures
        edge_errors(EdgeCheck::Integrity, g, i).contains(ErrorView::UnknownNode(id)) <==> !is_there(
            g,
            id,
        ) && (g.edges[i].from_node == id || g.edges[i].to_node == id),
{
    let unknown = ErrorView::UnknownNode(id);
    let edge = g.edges[i];
    assert(g.has_node(edge.from_node) == is_there(g, edge.from_node));
    assert(g.has_node(edge.to_node) == is_there(g, edge.to_node));
    let a = error_if(
        !g.has_node(edge.from_node),
        ErrorView::UnknownNode(edge.from_node),
    );
    let b = error_if(
        !g.has_node(edge.to_node),
        ErrorView::UnknownNode(edge.to_node),
    );
    let c = error_if(
        repeats_edge(g, i),
        ErrorView::DuplicateEdge {
            from_node: edge.from_node,
            from_port: edge.from_port,
            to_node: edge.to_node,
            to_port: edge.to_port,
        },
    );
    lemma_either(a + b, c, unknown);
    lemma_either(a, b, unknown);
    lemma_one(!g.has_node(edge.from_node), ErrorView::UnknownNode(edge.from_node), unknown);
    lemma_one(!g.has_node(edge.to_node), ErrorView::UnknownNode(edge.to_node), unknown);
}

proof fn lemma_one(bad: bool, error: ErrorView, e: ErrorView)
    ensures
        error_if(bad, error).contains(e) <==> bad && error == e,
{
    if bad {
        assert(error_if(bad, error)[0] == error);
    }
}

/// Which part of what is reported a problem can be in.
proof fn lemma_only(g: GraphView, e: ErrorView)
    ensures
        e is DuplicateNodeId ==> (graph_errors(g).contains(e) <==> nodes_errors(
            NodeCheck::UniqueId,
            g,
            g.nodes.len(),
        ).contains(e)),
        e is MissingTrigger || e is MultipleTriggers ==> (graph_errors(g).contains(e)
            <==> trigger_errors(g).contains(e)),
        e is UnknownNode || e is DuplicateEdge ==> (graph_errors(g).contains(e) <==> edges_errors(
            EdgeCheck::Integrity,
            g,
            g.edges.len(),
        ).contains(e)),
        e is MissingErrorRoute || e is InvalidOnError ==> (graph_errors(g).contains(e)
            <==> nodes_errors(NodeCheck::OnError, g, g.nodes.len()).contains(e)),
        e is InvalidConditionRouting ==> (graph_errors(g).contains(e) <==> edges_errors(
            EdgeCheck::ConditionRouting,
            g,
            g.edges.len(),
        ).contains(e)),
        e is InvalidInputName || e is DuplicateInputName || e is InputDefaultTypeMismatch
            || e is RequiredInputWithDefault ==> (graph_errors(g).contains(e) <==> inputs_errors(
            g,
            g.inputs.len(),
        ).contains(e)),
{
    lemma_reported(g, e);
    lemma_no_such_node_problem(NodeCheck::UniqueId, g, e);
    lemma_no_such_node_problem(NodeCheck::OnError, g, e);
    lemma_no_such_node_problem(NodeCheck::SubWorkflow, g, e);
    lemma_no_such_node_problem(NodeCheck::FanOut, g, e);
    lemma_no_such_node_problem(NodeCheck::Memory, g, e);
    lemma_no_such_node_problem(NodeCheck::Dedup, g, e);
    lemma_no_such_node_problem(NodeCheck::Assignees, g, e);
    lemma_no_such_node_problem(NodeCheck::Lanes, g, e);
    lemma_no_such_node_problem(NodeCheck::Literals, g, e);
    lemma_no_such_edge_problem(EdgeCheck::Integrity, g, e);
    lemma_no_such_edge_problem(EdgeCheck::VoidSink, g, e);
    lemma_no_such_edge_problem(EdgeCheck::ConditionRouting, g, e);
    lemma_inputs_report(g, g.inputs.len(), e);
    lemma_agents_report(g, g.agents.len(), e);
}

proof fn lemma_no_such_node_problem(check: NodeCheck, g: GraphView, e: ErrorView)
    ensures
        nodes_errors(check, g, g.nodes.len()).contains(e) ==> {
            ||| check == NodeCheck::UniqueId && e is DuplicateNodeId
            ||| check == NodeCheck::OnError && (e is MissingErrorRoute || e is InvalidOnError)
            ||| check != NodeCheck::UniqueId && e is InvalidNodeConfig
        },
{
    lemma_nodes_report(check, g, g.nodes.len(), e);
    if nodes_errors(check, g, g.nodes.len()).contains(e) {
        let i = choose|i: int|
            0 <= i < g.nodes.len() && (#[trigger] node_errors(check, g, i)).contains(e);
        lemma_node_problems(check, g, i, e);
    }
}

proof fn lemma_no_such_edge_problem(check: EdgeCheck, g: GraphView, e: ErrorView)
    ensures
        edges_errors(check, g, g.edges.len()).contains(e) ==> {
            ||| check == EdgeCheck::Integrity && (e is UnknownNode || e is DuplicateEdge)
            ||| check == EdgeCheck::VoidSink && e is InvalidNodeConfig
            ||| check == EdgeCheck::ConditionRouting && e is InvalidConditionRouting
        },
{
    lemma_edges_report(check, g, g.edges.len(), e);
}

/// A route for errors is reported as missing exactly where a node routes them and
/// no edge carries them; and a policy exactly where it is not known.
pub proof fn error_policies_are_reported_as_they_are(
    g: GraphView,
    id: Seq<char>,
    policy: Seq<char>,
)
    ensures
        graph_errors(g).contains(ErrorView::MissingErrorRoute(id)) <==> exists|i: int|
            0 <= i < g.nodes.len() && (#[trigger] g.nodes[i]).id == id && g.nodes[i].config.text_at(
                "on_error"@,
            ) == Some("route"@) && g.nodes[i].kind != NodeKind::Void && !leaves(g, id, "error"@),
        graph_errors(g).contains(ErrorView::InvalidOnError { node: id, value: policy }) <==> exists|
            i: int,
        |
            0 <= i < g.nodes.len() && (#[trigger] g.nodes[i]).id == id && g.nodes[i].config.text_at(
                "on_error"@,
            ) == Some(policy) && policy != "route"@ && policy != "stop"@ && policy != "continue"@,
{
    lemma_policies();
    let missing = ErrorView::MissingErrorRoute(id);
    let invalid = ErrorView::InvalidOnError { node: id, value: policy };
    lemma_only(g, missing);
    lemma_only(g, invalid);
    lemma_nodes_report(NodeCheck::OnError, g, g.nodes.len(), missing);
    lemma_nodes_report(NodeCheck::OnError, g, g.nodes.len(), invalid);
    assert(has_error_edge(g, id) == leaves(g, id, "error"@));
    assert forall|i: int| 0 <= i < g.nodes.len() implies ((#[trigger] node_errors(
        NodeCheck::OnError,
        g,
        i,
    )).contains(missing) <==> g.nodes[i].id == id && g.nodes[i].config.text_at("on_error"@) == Some(
        "route"@,
    ) && g.nodes[i].kind != NodeKind::Void && !leaves(g, id, "error"@)) by {
        let found = node_errors(NodeCheck::OnError, g, i);
        if found.len() > 0 {
            assert(found[0] == found[0] && found.len() == 1);
            assert(found.contains(found[0]));
        }
    }
    assert forall|i: int| 0 <= i < g.nodes.len() implies ((#[trigger] node_errors(
        NodeCheck::OnError,
        g,
        i,
    )).contains(invalid) <==> g.nodes[i].id == id && g.nodes[i].config.text_at("on_error"@) == Some(
        policy,
    ) && policy != "route"@ && policy != "stop"@ && policy != "continue"@) by {
        let found = node_errors(NodeCheck::OnError, g, i);
        if found.len() > 0 {
            assert(found.contains(found[0]) && found.len() == 1);
        }
    }
    if exists|i: int|
        0 <= i < g.nodes.len() && (#[trigger] g.nodes[i]).id == id && g.nodes[i].config.text_at(
            "on_error"@,
        ) == Some("route"@) && g.nodes[i].kind != NodeKind::Void && !leaves(g, id, "error"@) {
        let i = choose|i: int|
            0 <= i < g.nodes.len() && (#[trigger] g.nodes[i]).id == id && g.nodes[i].config.text_at(
                "on_error"@,
            ) == Some("route"@) && g.nodes[i].kind != NodeKind::Void && !leaves(g, id, "error"@);
        assert(node_errors(NodeCheck::OnError, g, i).contains(missing));
    }
    if exists|i: int|
        0 <= i < g.nodes.len() && (#[trigger] g.nodes[i]).id == id && g.nodes[i].config.text_at(
            "on_error"@,
        ) == Some(policy) && policy != "route"@ && policy != "stop"@ && policy != "continue"@ {
        let i = choose|i: int|
            0 <= i < g.nodes.len() && (#[trigger] g.nodes[i]).id == id && g.nodes[i].config.text_at(
                "on_error"@,
            ) == Some(policy) && policy != "route"@ && policy != "stop"@ && policy != "continue"@;
        assert(node_errors(NodeCheck::OnError, g, i).contains(invalid));
    }
}

/// Where there are several triggers, they are all named, in order.
pub proof fn triggers_are_named(g: GraphView, n: nat)
    requires
        n <= g.nodes.len(),
    ensures
        n > 0 && g.nodes[n - 1].kind == NodeKind::Trigger ==> trigger_ids(g, n) == trigger_ids(
            g,
            (n - 1) as nat,
        ).push(g.nodes[n - 1].id),
        n > 0 && g.nodes[n - 1].kind != NodeKind::Trigger ==> trigger_ids(g, n) == trigger_ids(
            g,
            (n - 1) as nat,
        ),
        trigger_ids(g, 0).len() == 0,
        trigger_ids(g, g.nodes.len()).len() > 1 ==> graph_errors(g).contains(
            ErrorView::MultipleTriggers(trigger_ids(g, g.nodes.len())),
        ),
{
    let all = trigger_ids(g, g.nodes.len());
    lemma_only(g, ErrorView::MultipleTriggers(all));
    if all.len() > 1 {
        assert(trigger_errors(g)[0] == ErrorView::MultipleTriggers(all));
    }
}

/// What a check of a node finds wrong is said of that node; only a lane's problems
/// are said of the nodes in the lane.
pub proof fn problems_are_said_of_their_node(check: NodeCheck, g: GraphView, i: int, k: int)
    requires
        0 <= i < g.nodes.len(),
        0 <= k < node_errors(check, g, i).len(),
    ensures
        check != NodeCheck::Lanes ==> node_errors(check, g, i)[k].node_id() == Some(g.nodes[i].id),
        node_errors(check, g, i)[k].node_id() is Some,
        is_there(g, node_errors(check, g, i)[k].node_id()->0),
{
    let e = node_errors(check, g, i)[k];
    assert(node_errors(check, g, i).contains(e));
    lemma_node_problems(check, g, i, e);
    assert(is_there(g, g.nodes[i].id));
}

proof fn lemma_integrity(g: GraphView, i: int, e: ErrorView)
    requires
        0 <= i < g.edges.len(),
        e is DuplicateEdge,
    ensures
        edge_errors(EdgeCheck::Integrity, g, i).contains(e) <==> repeats_edge(g, i)
            && e == (ErrorView::DuplicateEdge {
            from_node: g.edges[i].from_node,
            from_port: g.edges[i].from_port,
            to_node: g.edges[i].to_node,
            to_port: g.edges[i].to_port,
        }),
{
    let edge = g.edges[i];
    let twice = ErrorView::DuplicateEdge {
        from_node: edge.from_node,
        from_port: edge.from_port,
        to_node: edge.to_node,
        to_port: edge.to_port,
    };
    let a = error_if(
        !g.has_node(edge.from_node),
        ErrorView::UnknownNode(edge.from_node),
    );
    let b = error_if(
        !g.has_node(edge.to_node),
        ErrorView::UnknownNode(edge.to_node),
    );
    let c = error_if(repeats_edge(g, i), twice);
    lemma_either(a + b, c, e);
    lemma_either(a, b, e);
    lemma_one(!g.has_node(edge.from_node), ErrorView::UnknownNode(edge.from_node), e);
    lemma_one(!g.has_node(edge.to_node), ErrorView::UnknownNode(edge.to_node), e);
    lemma_one(repeats_edge(g, i), twice, e);
}

/// An edge is reported as drawn twice exactly where it is; and a way out of a
/// condition exactly where it is neither `true` nor `false`.
pub proof fn edges_are_reported_as_they_are(g: GraphView, edge: EdgeView)
    ensures
        graph_errors(g).contains(
            ErrorView::DuplicateEdge {
                from_node: edge.from_node,
                from_port: edge.from_port,
                to_node: edge.to_node,
                to_port: edge.to_port,
            },
        ) <==> exists|i: int, k: int|
            0 <= k < i < g.edges.len() && #[trigger] g.edges[k] == edge && #[trigger] g.edges[i]
                == edge,
        graph_errors(g).contains(
            ErrorView::InvalidConditionRouting {
                node: edge.from_node,
                from_port: edge.from_port,
            },
        ) <==> edge.from_port != "true"@ && edge.from_port != "false"@ && is_of(
            g,
            edge.from_node,
            NodeKind::Condition,
        ) && leaves(g, edge.from_node, edge.from_port),
{
    let twice = ErrorView::DuplicateEdge {
        from_node: edge.from_node,
        from_port: edge.from_port,
        to_node: edge.to_node,
        to_port: edge.to_port,
    };
    let stray = ErrorView::InvalidConditionRouting {
        node: edge.from_node,
        from_port: edge.from_port,
    };
    lemma_only(g, twice);
    lemma_only(g, stray);
    lemma_edges_report(EdgeCheck::Integrity, g, g.edges.len(), twice);
    lemma_edges_report(EdgeCheck::ConditionRouting, g, g.edges.len(), stray);
    assert forall|i: int| 0 <= i < g.edges.len() implies ((#[trigger] edge_errors(
        EdgeCheck::Integrity,
        g,
        i,
    )).contains(twice) <==> repeats_edge(g, i) && g.edges[i] == edge) by {
        lemma_integrity(g, i, twice);
        if g.edges[i].from_node == edge.from_node && g.edges[i].from_port == edge.from_port
            && g.edges[i].to_node == edge.to_node && g.edges[i].to_port == edge.to_port {
            assert(g.edges[i] =~= edge);
        }
    }
    assert forall|i: int| 0 <= i < g.edges.len() implies ((#[trigger] edge_errors(
        EdgeCheck::ConditionRouting,
        g,
        i,
    )).contains(stray) <==> g.edges[i].from_node == edge.from_node && g.edges[i].from_port
        == edge.from_port && is_of(g, edge.from_node, NodeKind::Condition) && edge.from_port
        != "true"@ && edge.from_port != "false"@) by {
        let at = g.edges[i];
        assert(is_kind(g, NodeKind::Condition, at.from_node) == is_of(
            g,
            at.from_node,
            NodeKind::Condition,
        ));
        lemma_one(
            is_kind(g, NodeKind::Condition, at.from_node) && at.from_port != "true"@
                && at.from_port != "false"@,
            ErrorView::InvalidConditionRouting { node: at.from_node, from_port: at.from_port },
            stray,
        );
    }
    if exists|i: int, k: int|
        0 <= k < i < g.edges.len() && #[trigger] g.edges[k] == edge && #[trigger] g.edges[i]
            == edge {
        let (i, k) = choose|i: int, k: int|
            0 <= k < i < g.edges.len() && #[trigger] g.edges[k] == edge && #[trigger] g.edges[i]
                == edge;
        assert(repeats_edge(g, i));
        assert(edge_errors(EdgeCheck::Integrity, g, i).contains(twice));
    }
    if graph_errors(g).contains(twice) {
        let i = choose|i: int|
            0 <= i < g.edges.len() && (#[trigger] edge_errors(
                EdgeCheck::Integrity,
                g,
                i,
            )).contains(twice);
        let k = choose|k: int| 0 <= k < i && #[trigger] g.edges[k] == g.edges[i];
        assert(g.edges[k] == edge && g.edges[i] == edge);
    }
    if leaves(g, edge.from_node, edge.from_port) && is_of(g, edge.from_node, NodeKind::Condition)
        && edge.from_port != "true"@ && edge.from_port != "false"@ {
        let i = choose|i: int|
            0 <= i < g.edges.len() && (#[trigger] g.edges[i]).from_node == edge.from_node
                && g.edges[i].from_port == edge.from_port;
        assert(edge_errors(EdgeCheck::ConditionRouting, g, i).contains(stray));
    }
    if graph_errors(g).contains(stray) {
        let i = choose|i: int|
            0 <= i < g.edges.len() && (#[trigger] edge_errors(
                EdgeCheck::ConditionRouting,
                g,
                i,
            )).contains(stray);
        assert(g.edges[i].from_node == edge.from_node);
    }
}

proof fn lemma_input(g: GraphView, i: int, e: ErrorView)
    requires
        0 <= i < g.inputs.len(),
    ensures
        input_errors(g, i).contains(e) <==> {
            let input = g.inputs[i];
            ||| e == ErrorView::InvalidInputName(input.name) && !is_a_name(input.name)
            ||| e == ErrorView::DuplicateInputName(input.name) && repeats_name(
                g,
                i,
            )
            ||| input.default is Some && !is_a(input.default->0, input.ty) && e == (
            ErrorView::InputDefaultTypeMismatch {
                name: input.name,
                expected: input_type_text(input.ty),
            })
            ||| input.default is Some && is_a(input.default->0, input.ty) && input.required && e
                == ErrorView::RequiredInputWithDefault(input.name)
        },
{
    let input = g.inputs[i];
    assert(addressable(input.name) == is_a_name(input.name));
    let a = error_if(
        !addressable(input.name),
        ErrorView::InvalidInputName(input.name),
    );
    let b = error_if(
        repeats_name(g, i),
        ErrorView::DuplicateInputName(input.name),
    );
    let c = default_errors(input);
    lemma_either(a + b, c, e);
    lemma_either(a, b, e);
    lemma_one(
        !addressable(input.name),
        ErrorView::InvalidInputName(input.name),
        e,
    );
    lemma_one(
        repeats_name(g, i),
        ErrorView::DuplicateInputName(input.name),
        e,
    );
    if input.default is Some {
        lemma_one(input.required, ErrorView::RequiredInputWithDefault(input.name), e);
        if c.len() > 0 {
            assert(c.contains(c[0]) && c.len() == 1);
        }
    }
}

/// A declared input is reported as what is wrong with it: a name that expressions
/// cannot address, a name that is taken, a default of another type than declared,
/// and a default where a value is required; and nothing else is said of inputs.
pub proof fn inputs_are_reported_as_they_are(g: GraphView, name: Seq<char>, ty: InputType)
    ensures
        graph_errors(g).contains(ErrorView::InvalidInputName(name)) <==> !is_a_name(name) && exists|
            i: int,
        | 0 <= i < g.inputs.len() && (#[trigger] g.inputs[i]).name == name,
        graph_errors(g).contains(ErrorView::DuplicateInputName(name)) <==> exists|i: int, k: int|
            0 <= k < i < g.inputs.len() && (#[trigger] g.inputs[k]).name == name && (
            #[trigger] g.inputs[i]).name == name,
        graph_errors(g).contains(ErrorView::RequiredInputWithDefault(name)) <==> exists|i: int|
            0 <= i < g.inputs.len() && (#[trigger] g.inputs[i]).name == name && g.inputs[i].required
                && g.inputs[i].default is Some && is_a(g.inputs[i].default->0, g.inputs[i].ty),
        (exists|i: int|
            0 <= i < g.inputs.len() && (#[trigger] g.inputs[i]).name == name && g.inputs[i].ty == ty
                && g.inputs[i].default is Some && !is_a(g.inputs[i].default->0, ty))
            ==> graph_errors(g).contains(
            ErrorView::InputDefaultTypeMismatch {
                name,
                expected: input_type_text(ty),
            },
        ),
{
    let bad = ErrorView::InvalidInputName(name);
    let taken = ErrorView::DuplicateInputName(name);
    let both = ErrorView::RequiredInputWithDefault(name);
    let other = ErrorView::InputDefaultTypeMismatch {
        name,
        expected: input_type_text(ty),
    };
    lemma_only(g, bad);
    lemma_only(g, taken);
    lemma_only(g, both);
    lemma_only(g, other);
    lemma_inputs_report(g, g.inputs.len(), bad);
    lemma_inputs_report(g, g.inputs.len(), taken);
    lemma_inputs_report(g, g.inputs.len(), both);
    lemma_inputs_report(g, g.inputs.len(), other);
    assert forall|i: int| 0 <= i < g.inputs.len() implies ((#[trigger] input_errors(
        g,
        i,
    )).contains(bad) <==> g.inputs[i].name == name && !is_a_name(name)) && (input_errors(
        g,
        i,
    ).contains(taken) <==> g.inputs[i].name == name && repeats_name(g, i)) && (
    input_errors(g, i).contains(both) <==> g.inputs[i].name == name && g.inputs[i].required
        && g.inputs[i].default is Some && is_a(g.inputs[i].default->0, g.inputs[i].ty)) by {
        lemma_input(g, i, bad);
        lemma_input(g, i, taken);
        lemma_input(g, i, both);
    }
    if !is_a_name(name) && exists|i: int|
        0 <= i < g.inputs.len() && (#[trigger] g.inputs[i]).name == name {
        let i = choose|i: int| 0 <= i < g.inputs.len() && (#[trigger] g.inputs[i]).name == name;
        assert(input_errors(g, i).contains(bad));
    }
    if graph_errors(g).contains(bad) {
        let i = choose|i: int|
            0 <= i < g.inputs.len() && (#[trigger] input_errors(g, i)).contains(bad);
        assert(g.inputs[i].name == name);
    }
    if exists|i: int, k: int|
        0 <= k < i < g.inputs.len() && (#[trigger] g.inputs[k]).name == name && (
        #[trigger] g.inputs[i]).name == name {
        let (i, k) = choose|i: int, k: int|
            0 <= k < i < g.inputs.len() && (#[trigger] g.inputs[k]).name == name && (
            #[trigger] g.inputs[i]).name == name;
        assert(repeats_name(g, i));
        assert(input_errors(g, i).contains(taken));
    }
    if graph_errors(g).contains(taken) {
        let i = choose|i: int|
            0 <= i < g.inputs.len() && (#[trigger] input_errors(g, i)).contains(taken);
        let k = choose|k: int| 0 <= k < i && (#[trigger] g.inputs[k]).name == g.inputs[i].name;
        assert(g.inputs[k].name == name && g.inputs[i].name == name);
    }
    if exists|i: int|
        0 <= i < g.inputs.len() && (#[trigger] g.inputs[i]).name == name && g.inputs[i].required
            && g.inputs[i].default is Some && is_a(g.inputs[i].default->0, g.inputs[i].ty) {
        let i = choose|i: int|
            0 <= i < g.inputs.len() && (#[trigger] g.inputs[i]).name == name
                && g.inputs[i].required && g.inputs[i].default is Some && is_a(
                g.inputs[i].default->0,
                g.inputs[i].ty,
            );
        assert(input_errors(g, i).contains(both));
    }
    if exists|i: int|
        0 <= i < g.inputs.len() && (#[trigger] g.inputs[i]).name == name && g.inputs[i].ty == ty
            && g.inputs[i].default is Some && !is_a(g.inputs[i].default->0, ty) {
        let i = choose|i: int|
            0 <= i < g.inputs.len() && (#[trigger] g.inputs[i]).name == name && g.inputs[i].ty == ty
                && g.inputs[i].default is Some && !is_a(g.inputs[i].default->0, ty);
        lemma_input(g, i, other);
        assert(input_errors(g, i).contains(other));
    }
}

} // verus!
