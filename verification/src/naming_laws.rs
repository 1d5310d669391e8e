//! What holds of every name and every message: that different things are called
//! differently, and that a message says what it is about.
use vstd::prelude::*;

use crate::adaptive::contracts::{blocker_text, Blocker};
use crate::caps::agent::{prose_of, structure_of, StopView};
use crate::error::ErrorView;
use crate::json::JsonView;
use crate::model::agent::{bare_definition, ContextSourceKindView, ContextSourceView, ToolGrantView};
use crate::model::graph::{
    addressable, input_type_text, is_name_char, kind_text, type_accepts, InputType, NodeKind,
};
use crate::text::{decimal, lemma_occurs_last, lemma_occurs_on, lemma_occurs_within, occurs_in};

verus! {

proof fn lemma_kinds()
    ensures
        "trigger"@ != "agent"@,
        "trigger"@ != "tool_call"@,
        "trigger"@ != "http_request"@,
        "trigger"@ != "code"@,
        "trigger"@ != "shell"@,
        "trigger"@ != "output_parser"@,
        "trigger"@ != "sub_workflow"@,
        "trigger"@ != "memory"@,
        "trigger"@ != "condition"@,
        "trigger"@ != "switch"@,
        "trigger"@ != "merge"@,
        "trigger"@ != "split_out"@,
        "trigger"@ != "transform"@,
        "trigger"@ != "dedup"@,
        "trigger"@ != "spawn"@,
        "trigger"@ != "gate"@,
        "trigger"@ != "loop"@,
        "trigger"@ != "void"@,
        "trigger"@ != "approval"@,
        "trigger"@ != "scatter"@,
        "trigger"@ != "gather"@,
        "agent"@ != "tool_call"@,
        "agent"@ != "http_request"@,
        "agent"@ != "code"@,
        "agent"@ != "shell"@,
        "agent"@ != "output_parser"@,
        "agent"@ != "sub_workflow"@,
        "agent"@ != "memory"@,
        "agent"@ != "condition"@,
        "agent"@ != "switch"@,
        "agent"@ != "merge"@,
        "agent"@ != "split_out"@,
        "agent"@ != "transform"@,
        "agent"@ != "dedup"@,
        "agent"@ != "spawn"@,
        "agent"@ != "gate"@,
        "agent"@ != "loop"@,
        "agent"@ != "void"@,
        "agent"@ != "approval"@,
        "agent"@ != "scatter"@,
        "agent"@ != "gather"@,
        "tool_call"@ != "http_request"@,
        "tool_call"@ != "code"@,
        "tool_call"@ != "shell"@,
        "tool_call"@ != "output_parser"@,
        "tool_call"@ != "sub_workflow"@,
        "tool_call"@ != "memory"@,
        "tool_call"@ != "condition"@,
        "tool_call"@ != "switch"@,
        "tool_call"@ != "merge"@,
        "tool_call"@ != "split_out"@,
        "tool_call"@ != "transform"@,
        "tool_call"@ != "dedup"@,
        "tool_call"@ != "spawn"@,
        "tool_call"@ != "gate"@,
        "tool_call"@ != "loop"@,
        "tool_call"@ != "void"@,
        "tool_call"@ != "approval"@,
        "tool_call"@ != "scatter"@,
        "tool_call"@ != "gather"@,
        "http_request"@ != "code"@,
        "http_request"@ != "shell"@,
        "http_request"@ != "output_parser"@,
        "http_request"@ != "sub_workflow"@,
        "http_request"@ != "memory"@,
        "http_request"@ != "condition"@,
        "http_request"@ != "switch"@,
        "http_request"@ != "merge"@,
        "http_request"@ != "split_out"@,
        "http_request"@ != "transform"@,
        "http_request"@ != "dedup"@,
        "http_request"@ != "spawn"@,
        "http_request"@ != "gate"@,
        "http_request"@ != "loop"@,
        "http_request"@ != "void"@,
        "http_request"@ != "approval"@,
        "http_request"@ != "scatter"@,
        "http_request"@ != "gather"@,
        "code"@ != "shell"@,
        "code"@ != "output_parser"@,
        "code"@ != "sub_workflow"@,
        "code"@ != "memory"@,
        "code"@ != "condition"@,
        "code"@ != "switch"@,
        "code"@ != "merge"@,
        "code"@ != "split_out"@,
        "code"@ != "transform"@,
        "code"@ != "dedup"@,
        "code"@ != "spawn"@,
        "code"@ != "gate"@,
        "code"@ != "loop"@,
        "code"@ != "void"@,
        "code"@ != "approval"@,
        "code"@ != "scatter"@,
        "code"@ != "gather"@,
        "shell"@ != "output_parser"@,
        "shell"@ != "sub_workflow"@,
        "shell"@ != "memory"@,
        "shell"@ != "condition"@,
        "shell"@ != "switch"@,
        "shell"@ != "merge"@,
        "shell"@ != "split_out"@,
        "shell"@ != "transform"@,
        "shell"@ != "dedup"@,
        "shell"@ != "spawn"@,
        "shell"@ != "gate"@,
        "shell"@ != "loop"@,
        "shell"@ != "void"@,
        "shell"@ != "approval"@,
        "shell"@ != "scatter"@,
        "shell"@ != "gather"@,
        "output_parser"@ != "sub_workflow"@,
        "output_parser"@ != "memory"@,
        "output_parser"@ != "condition"@,
        "output_parser"@ != "switch"@,
        "output_parser"@ != "merge"@,
        "output_parser"@ != "split_out"@,
        "output_parser"@ != "transform"@,
        "output_parser"@ != "dedup"@,
        "output_parser"@ != "spawn"@,
        "output_parser"@ != "gate"@,
        "output_parser"@ != "loop"@,
        "output_parser"@ != "void"@,
        "output_parser"@ != "approval"@,
        "output_parser"@ != "scatter"@,
        "output_parser"@ != "gather"@,
        "sub_workflow"@ != "memory"@,
        "sub_workflow"@ != "condition"@,
        "sub_workflow"@ != "switch"@,
        "sub_workflow"@ != "merge"@,
        "sub_workflow"@ != "split_out"@,
        "sub_workflow"@ != "transform"@,
        "sub_workflow"@ != "dedup"@,
        "sub_workflow"@ != "spawn"@,
        "sub_workflow"@ != "gate"@,
        "sub_workflow"@ != "loop"@,
        "sub_workflow"@ != "void"@,
        "sub_workflow"@ != "approval"@,
        "sub_workflow"@ != "scatter"@,
        "sub_workflow"@ != "gather"@,
        "memory"@ != "condition"@,
        "memory"@ != "switch"@,
        "memory"@ != "merge"@,
        "memory"@ != "split_out"@,
        "memory"@ != "transform"@,
        "memory"@ != "dedup"@,
        "memory"@ != "spawn"@,
        "memory"@ != "gate"@,
        "memory"@ != "loop"@,
        "memory"@ != "void"@,
        "memory"@ != "approval"@,
        "memory"@ != "scatter"@,
        "memory"@ != "gather"@,
        "condition"@ != "switch"@,
        "condition"@ != "merge"@,
        "condition"@ != "split_out"@,
        "condition"@ != "transform"@,
        "condition"@ != "dedup"@,
        "condition"@ != "spawn"@,
        "condition"@ != "gate"@,
        "condition"@ != "loop"@,
        "condition"@ != "void"@,
        "condition"@ != "approval"@,
        "condition"@ != "scatter"@,
        "condition"@ != "gather"@,
        "switch"@ != "merge"@,
        "switch"@ != "split_out"@,
        "switch"@ != "transform"@,
        "switch"@ != "dedup"@,
        "switch"@ != "spawn"@,
        "switch"@ != "gate"@,
        "switch"@ != "loop"@,
        "switch"@ != "void"@,
        "switch"@ != "approval"@,
        "switch"@ != "scatter"@,
        "switch"@ != "gather"@,
        "merge"@ != "split_out"@,
        "merge"@ != "transform"@,
        "merge"@ != "dedup"@,
        "merge"@ != "spawn"@,
        "merge"@ != "gate"@,
        "merge"@ != "loop"@,
        "merge"@ != "void"@,
        "merge"@ != "approval"@,
        "merge"@ != "scatter"@,
        "merge"@ != "gather"@,
        "split_out"@ != "transform"@,
        "split_out"@ != "dedup"@,
        "split_out"@ != "spawn"@,
        "split_out"@ != "gate"@,
        "split_out"@ != "loop"@,
        "split_out"@ != "void"@,
        "split_out"@ != "approval"@,
        "split_out"@ != "scatter"@,
        "split_out"@ != "gather"@,
        "transform"@ != "dedup"@,
        "transform"@ != "spawn"@,
        "transform"@ != "gate"@,
        "transform"@ != "loop"@,
        "transform"@ != "void"@,
        "transform"@ != "approval"@,
        "transform"@ != "scatter"@,
        "transform"@ != "gather"@,
        "dedup"@ != "spawn"@,
        "dedup"@ != "gate"@,
        "dedup"@ != "loop"@,
        "dedup"@ != "void"@,
        "dedup"@ != "approval"@,
        "dedup"@ != "scatter"@,
        "dedup"@ != "gather"@,
        "spawn"@ != "gate"@,
        "spawn"@ != "loop"@,
        "spawn"@ != "void"@,
        "spawn"@ != "approval"@,
        "spawn"@ != "scatter"@,
        "spawn"@ != "gather"@,
        "gate"@ != "loop"@,
        "gate"@ != "void"@,
        "gate"@ != "approval"@,
        "gate"@ != "scatter"@,
        "gate"@ != "gather"@,
        "loop"@ != "void"@,
        "loop"@ != "approval"@,
        "loop"@ != "scatter"@,
        "loop"@ != "gather"@,
        "void"@ != "approval"@,
        "void"@ != "scatter"@,
        "void"@ != "gather"@,
        "approval"@ != "scatter"@,
        "approval"@ != "gather"@,
        "scatter"@ != "gather"@,
{
    reveal_strlit("trigger");
    reveal_strlit("agent");
    reveal_strlit("tool_call");
    reveal_strlit("http_request");
    reveal_strlit("code");
    reveal_strlit("shell");
    reveal_strlit("output_parser");
    reveal_strlit("sub_workflow");
    reveal_strlit("memory");
    reveal_strlit("condition");
    reveal_strlit("switch");
    reveal_strlit("merge");
    reveal_strlit("split_out");
    reveal_strlit("transform");
    reveal_strlit("dedup");
    reveal_strlit("spawn");
    reveal_strlit("gate");
    reveal_strlit("loop");
    reveal_strlit("void");
    reveal_strlit("approval");
    reveal_strlit("scatter");
    reveal_strlit("gather");
    assert("trigger"@.len() == 7 && "agent"@.len() == 5 && "tool_call"@.len() == 9 && "http_request"@.len() == 12 && "code"@.len() == 4 && "shell"@.len() == 5 && "output_parser"@.len() == 13 && "sub_workflow"@.len() == 12 && "memory"@.len() == 6 && "condition"@.len() == 9 && "switch"@.len() == 6 && "merge"@.len() == 5 && "split_out"@.len() == 9 && "transform"@.len() == 9 && "dedup"@.len() == 5 && "spawn"@.len() == 5 && "gate"@.len() == 4 && "loop"@.len() == 4 && "void"@.len() == 4 && "approval"@.len() == 8 && "scatter"@.len() == 7 && "gather"@.len() == 6);
    assert("trigger"@[0] == 't');
    assert("scatter"@[0] == 's');
    assert("agent"@[0] == 'a');
    assert("shell"@[0] == 's');
    assert("merge"@[0] == 'm');
    assert("dedup"@[0] == 'd');
    assert("spawn"@[0] == 's');
    assert("tool_call"@[0] == 't');
    assert("condition"@[0] == 'c');
    assert("split_out"@[0] == 's');
    assert("tool_call"@[1] == 'o');
    assert("transform"@[1] == 'r');
    assert("http_request"@[0] == 'h');
    assert("sub_workflow"@[0] == 's');
    assert("code"@[0] == 'c');
    assert("gate"@[0] == 'g');
    assert("loop"@[0] == 'l');
    assert("void"@[0] == 'v');
    assert("shell"@[1] == 'h');
    assert("spawn"@[1] == 'p');
    assert("memory"@[0] == 'm');
    assert("switch"@[0] == 's');
    assert("gather"@[0] == 'g');
    assert("transform"@[0] == 't');
}

/// No two kinds of node have one name.
pub proof fn kinds_have_their_own_names(a: NodeKind, b: NodeKind)
    ensures
        kind_text(a) == kind_text(b) ==> a == b,
{
    lemma_kinds();
}

proof fn lemma_codes()
    ensures
        "duplicate_node_id"@ != "missing_trigger"@,
        "duplicate_node_id"@ != "multiple_triggers"@,
        "duplicate_node_id"@ != "unknown_node"@,
        "duplicate_node_id"@ != "duplicate_edge"@,
        "duplicate_node_id"@ != "invalid_node_config"@,
        "duplicate_node_id"@ != "missing_error_route"@,
        "duplicate_node_id"@ != "invalid_on_error"@,
        "duplicate_node_id"@ != "invalid_condition_routing"@,
        "duplicate_node_id"@ != "invalid_input_name"@,
        "duplicate_node_id"@ != "duplicate_input_name"@,
        "duplicate_node_id"@ != "input_default_type_mismatch"@,
        "duplicate_node_id"@ != "required_input_with_default"@,
        "duplicate_node_id"@ != "invalid_agent_definition"@,
        "missing_trigger"@ != "multiple_triggers"@,
        "missing_trigger"@ != "unknown_node"@,
        "missing_trigger"@ != "duplicate_edge"@,
        "missing_trigger"@ != "invalid_node_config"@,
        "missing_trigger"@ != "missing_error_route"@,
        "missing_trigger"@ != "invalid_on_error"@,
        "missing_trigger"@ != "invalid_condition_routing"@,
        "missing_trigger"@ != "invalid_input_name"@,
        "missing_trigger"@ != "duplicate_input_name"@,
        "missing_trigger"@ != "input_default_type_mismatch"@,
        "missing_trigger"@ != "required_input_with_default"@,
        "missing_trigger"@ != "invalid_agent_definition"@,
        "multiple_triggers"@ != "unknown_node"@,
        "multiple_triggers"@ != "duplicate_edge"@,
        "multiple_triggers"@ != "invalid_node_config"@,
        "multiple_triggers"@ != "missing_error_route"@,
        "multiple_triggers"@ != "invalid_on_error"@,
        "multiple_triggers"@ != "invalid_condition_routing"@,
        "multiple_triggers"@ != "invalid_input_name"@,
        "multiple_triggers"@ != "duplicate_input_name"@,
        "multiple_triggers"@ != "input_default_type_mismatch"@,
        "multiple_triggers"@ != "required_input_with_default"@,
        "multiple_triggers"@ != "invalid_agent_definition"@,
        "unknown_node"@ != "duplicate_edge"@,
        "unknown_node"@ != "invalid_node_config"@,
        "unknown_node"@ != "missing_error_route"@,
        "unknown_node"@ != "invalid_on_error"@,
        "unknown_node"@ != "invalid_condition_routing"@,
        "unknown_node"@ != "invalid_input_name"@,
        "unknown_node"@ != "duplicate_input_name"@,
        "unknown_node"@ != "input_default_type_mismatch"@,
        "unknown_node"@ != "required_input_with_default"@,
        "unknown_node"@ != "invalid_agent_definition"@,
        "duplicate_edge"@ != "invalid_node_config"@,
        "duplicate_edge"@ != "missing_error_route"@,
        "duplicate_edge"@ != "invalid_on_error"@,
        "duplicate_edge"@ != "invalid_condition_routing"@,
        "duplicate_edge"@ != "invalid_input_name"@,
        "duplicate_edge"@ != "duplicate_input_name"@,
        "duplicate_edge"@ != "input_default_type_mismatch"@,
        "duplicate_edge"@ != "required_input_with_default"@,
        "duplicate_edge"@ != "invalid_agent_definition"@,
        "invalid_node_config"@ != "missing_error_route"@,
        "invalid_node_config"@ != "invalid_on_error"@,
        "invalid_node_config"@ != "invalid_condition_routing"@,
        "invalid_node_config"@ != "invalid_input_name"@,
        "invalid_node_config"@ != "duplicate_input_name"@,
        "invalid_node_config"@ != "input_default_type_mismatch"@,
        "invalid_node_config"@ != "required_input_with_default"@,
        "invalid_node_config"@ != "invalid_agent_definition"@,
        "missing_error_route"@ != "invalid_on_error"@,
        "missing_error_route"@ != "invalid_condition_routing"@,
        "missing_error_route"@ != "invalid_input_name"@,
        "missing_error_route"@ != "duplicate_input_name"@,
        "missing_error_route"@ != "input_default_type_mismatch"@,
        "missing_error_route"@ != "required_input_with_default"@,
        "missing_error_route"@ != "invalid_agent_definition"@,
        "invalid_on_error"@ != "invalid_condition_routing"@,
        "invalid_on_error"@ != "invalid_input_name"@,
        "invalid_on_error"@ != "duplicate_input_name"@,
        "invalid_on_error"@ != "input_default_type_mismatch"@,
        "invalid_on_error"@ != "required_input_with_default"@,
        "invalid_on_error"@ != "invalid_agent_definition"@,
        "invalid_condition_routing"@ != "invalid_input_name"@,
        "invalid_condition_routing"@ != "duplicate_input_name"@,
        "invalid_condition_routing"@ != "input_default_type_mismatch"@,
        "invalid_condition_routing"@ != "required_input_with_default"@,
        "invalid_condition_routing"@ != "invalid_agent_definition"@,
        "invalid_input_name"@ != "duplicate_input_name"@,
        "invalid_input_name"@ != "input_default_type_mismatch"@,
        "invalid_input_name"@ != "required_input_with_default"@,
        "invalid_input_name"@ != "invalid_agent_definition"@,
        "duplicate_input_name"@ != "input_default_type_mismatch"@,
        "duplicate_input_name"@ != "required_input_with_default"@,
        "duplicate_input_name"@ != "invalid_agent_definition"@,
        "input_default_type_mismatch"@ != "required_input_with_default"@,
        "input_default_type_mismatch"@ != "invalid_agent_definition"@,
        "required_input_with_default"@ != "invalid_agent_definition"@,
{
    reveal_strlit("duplicate_node_id");
    reveal_strlit("missing_trigger");
    reveal_strlit("multiple_triggers");
    reveal_strlit("unknown_node");
    reveal_strlit("duplicate_edge");
    reveal_strlit("invalid_node_config");
    reveal_strlit("missing_error_route");
    reveal_strlit("invalid_on_error");
    reveal_strlit("invalid_condition_routing");
    reveal_strlit("invalid_input_name");
    reveal_strlit("duplicate_input_name");
    reveal_strlit("input_default_type_mismatch");
    reveal_strlit("required_input_with_default");
    reveal_strlit("invalid_agent_definition");
    assert("duplicate_node_id"@.len() == 17 && "missing_trigger"@.len() == 15 && "multiple_triggers"@.len() == 17 && "unknown_node"@.len() == 12 && "duplicate_edge"@.len() == 14 && "invalid_node_config"@.len() == 19 && "missing_error_route"@.len() == 19 && "invalid_on_error"@.len() == 16 && "invalid_condition_routing"@.len() == 25 && "invalid_input_name"@.len() == 18 && "duplicate_input_name"@.len() == 20 && "input_default_type_mismatch"@.len() == 27 && "required_input_with_default"@.len() == 27 && "invalid_agent_definition"@.len() == 24);
    assert("duplicate_node_id"@[0] == 'd');
    assert("multiple_triggers"@[0] == 'm');
    assert("invalid_node_config"@[0] == 'i');
    assert("missing_error_route"@[0] == 'm');
    assert("input_default_type_mismatch"@[0] == 'i');
    assert("required_input_with_default"@[0] == 'r');
}

/// Two problems have one code exactly where they are of one kind.
pub proof fn problems_have_their_own_codes(a: ErrorView, b: ErrorView)
    ensures
        a.code() == b.code() ==> {
            &&& a is DuplicateNodeId <==> b is DuplicateNodeId
            &&& a is MissingTrigger <==> b is MissingTrigger
            &&& a is MultipleTriggers <==> b is MultipleTriggers
            &&& a is UnknownNode <==> b is UnknownNode
            &&& a is DuplicateEdge <==> b is DuplicateEdge
            &&& a is InvalidNodeConfig <==> b is InvalidNodeConfig
            &&& a is MissingErrorRoute <==> b is MissingErrorRoute
            &&& a is InvalidOnError <==> b is InvalidOnError
            &&& a is InvalidConditionRouting <==> b is InvalidConditionRouting
            &&& a is InvalidInputName <==> b is InvalidInputName
            &&& a is DuplicateInputName <==> b is DuplicateInputName
            &&& a is InputDefaultTypeMismatch <==> b is InputDefaultTypeMismatch
            &&& a is RequiredInputWithDefault <==> b is RequiredInputWithDefault
            &&& a is InvalidAgentDefinition <==> b is InvalidAgentDefinition
        },
{
    lemma_codes();
}

/// A problem is told by its code, with the node it is about and the reason, where
/// it has them.
pub proof fn problems_say_what_they_are_about(error: ErrorView)
    ensures
        error.code().is_prefix_of(error.message()),
        error.node_id() matches Some(id) ==> occurs_in(error.message(), id),
        error matches ErrorView::InvalidNodeConfig { node, reason } ==> occurs_in(
            error.message(),
            reason,
        ) && error.node_id() == Some(node),
        error matches ErrorView::InvalidAgentDefinition { agent, reason } ==> occurs_in(
            error.message(),
            agent,
        ) && occurs_in(error.message(), reason),
        error matches ErrorView::UnknownNode(id) ==> error.node_id() == Some(id),
        error matches ErrorView::DuplicateNodeId(id) ==> error.node_id() == Some(id),
        error matches ErrorView::MissingErrorRoute(id) ==> error.node_id() == Some(id),
        error matches ErrorView::InvalidOnError { node, .. } ==> error.node_id() == Some(node),
        error matches ErrorView::InvalidConditionRouting { node, .. } ==> error.node_id() == Some(
            node,
        ),
        error matches ErrorView::DuplicateEdge { from_node, .. } ==> error.node_id() == Some(
            from_node,
        ),
        error is MissingTrigger || error is MultipleTriggers ==> error.node_id() is None,
{
    let code = error.code();
    let place = match error.node_id() {
        Some(id) => " at node "@ + id,
        None => Seq::empty(),
    };
    let more = match error {
        ErrorView::InvalidNodeConfig { reason, .. } => ": "@ + reason,
        ErrorView::InvalidAgentDefinition { agent, reason } => " of agent "@ + agent + ": "@
            + reason,
        _ => Seq::empty(),
    };
    let whole = error.message();
    assert(whole == code + place + more);
    assert(whole.subrange(0, code.len() as int) =~= code);
    if let Some(id) = error.node_id() {
        lemma_occurs_last(" at node "@, id);
        lemma_occurs_last(code, place);
        lemma_occurs_within(code + place, place, id);
        lemma_occurs_on(code + place, more, id);
    }
    lemma_occurs_last(code + place, more);
    match error {
        ErrorView::InvalidNodeConfig { reason, .. } => {
            lemma_occurs_last(": "@, reason);
            lemma_occurs_within(whole, more, reason);
        },
        ErrorView::InvalidAgentDefinition { agent, reason } => {
            let front = " of agent "@ + agent;
            lemma_occurs_last(" of agent "@, agent);
            lemma_occurs_on(front, ": "@, agent);
            lemma_occurs_on(front + ": "@, reason, agent);
            lemma_occurs_last(front + ": "@, reason);
            lemma_occurs_within(whole, more, agent);
            lemma_occurs_within(whole, more, reason);
        },
        _ => {},
    }
}

proof fn lemma_input_types()
    ensures
        "string"@ != "number"@,
        "string"@ != "boolean"@,
        "string"@ != "array"@,
        "string"@ != "object"@,
        "number"@ != "boolean"@,
        "number"@ != "array"@,
        "number"@ != "object"@,
        "boolean"@ != "array"@,
        "boolean"@ != "object"@,
        "array"@ != "object"@,
{
    reveal_strlit("string");
    reveal_strlit("number");
    reveal_strlit("boolean");
    reveal_strlit("array");
    reveal_strlit("object");
    assert("string"@.len() == 6 && "number"@.len() == 6 && "boolean"@.len() == 7 && "array"@.len() == 5 && "object"@.len() == 6);
    assert("string"@[0] == 's');
    assert("number"@[0] == 'n');
    assert("object"@[0] == 'o');
}

/// No two types of input have one name, and a value is of one type at most.
pub proof fn input_types_are_told_apart(a: InputType, b: InputType, value: JsonView)
    ensures
        input_type_text(a) == input_type_text(b) ==> a == b,
        type_accepts(a, value) && type_accepts(b, value) ==> a == b,
        value is Null ==> !type_accepts(a, value),
        value is Object ==> (type_accepts(a, value) <==> a == InputType::Object),
        value is Array ==> (type_accepts(a, value) <==> a == InputType::Array),
        value is String ==> (type_accepts(a, value) <==> a == InputType::String),
        value is Number ==> (type_accepts(a, value) <==> a == InputType::Number),
        value is Bool ==> (type_accepts(a, value) <==> a == InputType::Boolean),
{
    lemma_input_types();
}

/// A name can be addressed exactly where it begins with a letter or an underscore
/// and goes on with those and with digits.
pub proof fn names_are_letters_digits_and_underscores(name: Seq<char>)
    ensures
        name.len() == 0 ==> !addressable(name),
        name.len() > 0 && '0' <= name[0] <= '9' ==> !addressable(name),
        name.len() > 0 && !('0' <= name[0] <= '9') && (forall|i: int|
            0 <= i < name.len() ==> 'a' <= #[trigger] name[i] <= 'z' || 'A' <= name[i] <= 'Z'
                || '0' <= name[i] <= '9' || name[i] == '_') ==> addressable(name),
        name.contains('.') || name.contains('-') || name.contains(' ') ==> !addressable(name),
{
    if name.contains('.') {
        let i = choose|i: int| 0 <= i < name.len() && name[i] == '.';
        assert(!is_name_char(name[i]));
    }
    if name.contains('-') {
        let i = choose|i: int| 0 <= i < name.len() && name[i] == '-';
        assert(!is_name_char(name[i]));
    }
    if name.contains(' ') {
        let i = choose|i: int| 0 <= i < name.len() && name[i] == ' ';
        assert(!is_name_char(name[i]));
    }
}

proof fn lemma_sources()
    ensures
        "text"@ != "items"@,
        "text"@ != "memory"@,
        "text"@ != "flavour"@,
        "text"@ != "host"@,
        "items"@ != "memory"@,
        "items"@ != "flavour"@,
        "items"@ != "host"@,
        "memory"@ != "flavour"@,
        "memory"@ != "host"@,
        "flavour"@ != "host"@,
{
    reveal_strlit("text");
    reveal_strlit("items");
    reveal_strlit("memory");
    reveal_strlit("flavour");
    reveal_strlit("host");
    assert("text"@.len() == 4 && "items"@.len() == 5 && "memory"@.len() == 6 && "flavour"@.len() == 7 && "host"@.len() == 4);
    assert("text"@[0] == 't');
    assert("host"@[0] == 'h');
}

proof fn lemma_stops()
    ensures
        "finished"@ != "limit_stop"@,
        "finished"@ != "paused"@,
        "limit_stop"@ != "paused"@,
{
    reveal_strlit("finished");
    reveal_strlit("limit_stop");
    reveal_strlit("paused");
    assert("finished"@.len() == 8 && "limit_stop"@.len() == 10 && "paused"@.len() == 6);
}

proof fn lemma_blockers()
    ensures
        "None"@ != "GoalNotMet"@,
        "None"@ != "MissingEvidence"@,
        "None"@ != "NeedsInput"@,
        "GoalNotMet"@ != "MissingEvidence"@,
        "GoalNotMet"@ != "NeedsInput"@,
        "MissingEvidence"@ != "NeedsInput"@,
{
    reveal_strlit("None");
    reveal_strlit("GoalNotMet");
    reveal_strlit("MissingEvidence");
    reveal_strlit("NeedsInput");
    assert("None"@.len() == 4 && "GoalNotMet"@.len() == 10 && "MissingEvidence"@.len() == 15 && "NeedsInput"@.len() == 10);
    assert("GoalNotMet"@[0] == 'G');
    assert("NeedsInput"@[0] == 'N');
}

/// Sources of context, reasons to stop and what blocks a goal are each told apart
/// by name.
pub proof fn reasons_and_sources_have_their_own_names(
    a: ContextSourceKindView,
    b: ContextSourceKindView,
    s: StopView,
    t: StopView,
    x: Blocker,
    y: Blocker,
)
    ensures
        a.name() == b.name() ==> (a is Text <==> b is Text) && (a is Items <==> b is Items) && (
        a is Memory <==> b is Memory) && (a is Flavour <==> b is Flavour) && (a is Host
            <==> b is Host),
        s.name() == t.name() ==> (s is Finished <==> t is Finished) && (s is LimitStop
            <==> t is LimitStop) && (s is Paused <==> t is Paused),
        blocker_text(x) == blocker_text(y) ==> x == y,
{
    lemma_sources();
    lemma_stops();
    lemma_blockers();
}

/// A source of context goes by its label, and by its place where it has none.
pub proof fn sources_go_by_label_or_place(source: ContextSourceView, i: nat)
    ensures
        source.label matches Some(label) ==> source.label_or_index(i) == label,
        source.label is None ==> source.label_or_index(i) == "context_"@ + decimal(i),
{
}

/// A definition that says nothing but its id asks for nothing and permits nothing.
pub proof fn bare_definitions_permit_nothing(id: Seq<char>)
    ensures
        bare_definition(id).id == id,
        bare_definition(id).tools.len() == 0,
        bare_definition(id).context.len() == 0,
        bare_definition(id).instructions is None,
        bare_definition(id).model is None,
        bare_definition(id).provider is None,
        bare_definition(id).working_dir is None,
        bare_definition(id).limits.max_steps is None,
        bare_definition(id).limits.max_tool_calls is None,
        bare_definition(id).limits.max_seconds is None,
{
}

/// A grant of `ns.*` covers exactly what begins with `ns.`, and any other grant
/// exactly its own slug.
pub proof fn grants_cover_their_namespace(
    ns: Seq<char>,
    slug: Seq<char>,
    other: Seq<char>,
    conn: Option<Seq<char>>,
)
    ensures
        (ToolGrantView { slug: ns + seq!['.', '*'], connection_ref: conn }).covers(
            ns + (seq!['.'] + slug),
        ),
        !(ns + seq!['.']).is_prefix_of(other) ==> !(ToolGrantView {
            slug: ns + seq!['.', '*'],
            connection_ref: conn,
        }).covers(other),
        slug.len() == 0 || slug.last() != '*' ==> ((ToolGrantView {
            slug,
            connection_ref: conn,
        }).covers(other) <==> slug == other),
{
    let pattern = ns + seq!['.', '*'];
    let grant = ToolGrantView { slug: pattern, connection_ref: conn };
    assert(pattern.subrange(pattern.len() - 2, pattern.len() as int) =~= seq!['.', '*']);
    assert(pattern.drop_last() =~= ns + seq!['.']);
    let inner = ns + (seq!['.'] + slug);
    assert(inner.subrange(0, (ns + seq!['.']).len() as int) =~= ns + seq!['.']);
    let exact = ToolGrantView { slug, connection_ref: conn };
    if exact.is_pattern() {
        assert(slug.subrange(slug.len() - 2, slug.len() as int)[1] == slug.last());
    }
}

/// The prose of a reply is the text it is or holds, and its structure the object
/// or list it is.
pub proof fn replies_give_prose_and_structure(value: JsonView, text: Seq<char>)
    ensures
        value == JsonView::String(text) ==> prose_of(value) == Some(text) && structure_of(value)
            == JsonView::Null,
        value is Object ==> structure_of(value) == value,
        value is Array ==> structure_of(value) == value && prose_of(value) is None,
        value is Object && value.get("text"@) == Some(JsonView::String(text)) ==> prose_of(value)
            == Some(text),
        value is Object && value.get("text"@) is None ==> prose_of(value) is None,
        value is Number || value is Bool || value is Null ==> structure_of(value) == JsonView::Null
            && prose_of(value) is None,
{
}

} // verus!
