//! What holds of every text that has to be written out: an expression in its place
//! is reported, with where it stands and what it says.
use vstd::prelude::*;

use crate::error::ErrorView;
use crate::json::JsonView;
use crate::literals::{
    block_reasons, blocks_reasons, bound_reason, bound_reasons, definition_errors,
    definition_reasons, grant_reasons, grants_reasons, is_expression, items_at, literal_errors,
    node_reasons, offer_reasons, offers_reasons, source_reasons, sources_reasons,
};
use crate::model::agent::{
    AgentDefinitionView, ContextSourceKindView, ContextSourceView, ToolGrantView,
};
use crate::model::graph::{NodeKind, NodeView};
use crate::text::{debug_text, lemma_occurs_between, lemma_occurs_last, lemma_occurs_on, occurs_in};

verus! {

/// The reason says which setting should have been written out, and what stands
/// there instead.
pub open spec fn tells_expression(reason: Seq<char>, what: Seq<char>, text: Seq<char>) -> bool {
    occurs_in(reason, what) && occurs_in(reason, debug_text(text))
}

/// Some problem of a node is told of that node, for that reason.
pub open spec fn node_is_told(node: NodeView, what: Seq<char>, text: Seq<char>) -> bool {
    exists|i: int|
        0 <= i < literal_errors(node).len() && ((#[trigger] literal_errors(
            node,
        )[i]) matches ErrorView::InvalidNodeConfig { node: id, reason } && id == node.id
            && tells_expression(reason, what, text))
}

/// Some problem of an agent is told of that agent, for that reason.
pub open spec fn agent_is_told(
    agent: AgentDefinitionView,
    what: Seq<char>,
    text: Seq<char>,
) -> bool {
    exists|i: int|
        0 <= i < definition_errors(agent).len() && ((#[trigger] definition_errors(
            agent,
        )[i]) matches ErrorView::InvalidAgentDefinition { agent: id, reason } && id == agent.id
            && tells_expression(reason, what, text))
}

proof fn lemma_told(what: Seq<char>, text: Seq<char>)
    requires
        is_expression(text),
    ensures
        bound_reasons(what, Some(text)).contains(bound_reason(what, text)),
        tells_expression(bound_reason(what, text), what, text),
{
    let middle = "` must be a literal, got the expression "@;
    assert(bound_reasons(what, Some(text))[0] == bound_reason(what, text));
    lemma_occurs_between("`"@, what, middle);
    lemma_occurs_on("`"@ + what + middle, debug_text(text), what);
    lemma_occurs_last("`"@ + what + middle, debug_text(text));
}

proof fn lemma_either_side(a: Seq<Seq<char>>, b: Seq<Seq<char>>, reason: Seq<char>)
    ensures
        a.contains(reason) || b.contains(reason) ==> (a + b).contains(reason),
{
    if a.contains(reason) {
        let k = choose|k: int| 0 <= k < a.len() && a[k] == reason;
        assert((a + b)[k] == reason);
    } else if b.contains(reason) {
        let k = choose|k: int| 0 <= k < b.len() && b[k] == reason;
        assert((a + b)[a.len() + k] == reason);
    }
}

proof fn lemma_offer_is_among(tools: Seq<JsonView>, n: nat, i: int, reason: Seq<char>)
    requires
        0 <= i < n <= tools.len(),
        offer_reasons(tools[i]).contains(reason),
    ensures
        offers_reasons(tools, n).contains(reason),
    decreases n,
{
    if i < n - 1 {
        lemma_offer_is_among(tools, (n - 1) as nat, i, reason);
    }
    lemma_either_side(offers_reasons(tools, (n - 1) as nat), offer_reasons(tools[n - 1]), reason);
}

proof fn lemma_block_is_among(sources: Seq<JsonView>, n: nat, i: int, reason: Seq<char>)
    requires
        0 <= i < n <= sources.len(),
        block_reasons(sources[i]).contains(reason),
    ensures
        blocks_reasons(sources, n).contains(reason),
    decreases n,
{
    if i < n - 1 {
        lemma_block_is_among(sources, (n - 1) as nat, i, reason);
    }
    lemma_either_side(
        blocks_reasons(sources, (n - 1) as nat),
        block_reasons(sources[n - 1]),
        reason,
    );
}

proof fn lemma_grant_is_among(grants: Seq<ToolGrantView>, n: nat, i: int, reason: Seq<char>)
    requires
        0 <= i < n <= grants.len(),
        grant_reasons(grants[i]).contains(reason),
    ensures
        grants_reasons(grants, n).contains(reason),
    decreases n,
{
    if i < n - 1 {
        lemma_grant_is_among(grants, (n - 1) as nat, i, reason);
    }
    lemma_either_side(grants_reasons(grants, (n - 1) as nat), grant_reasons(grants[n - 1]), reason);
}

proof fn lemma_source_is_among(sources: Seq<ContextSourceView>, n: nat, i: int, reason: Seq<char>)
    requires
        0 <= i < n <= sources.len(),
        source_reasons(sources[i]).contains(reason),
    ensures
        sources_reasons(sources, n).contains(reason),
    decreases n,
{
    if i < n - 1 {
        lemma_source_is_among(sources, (n - 1) as nat, i, reason);
    }
    lemma_either_side(
        sources_reasons(sources, (n - 1) as nat),
        source_reasons(sources[n - 1]),
        reason,
    );
}

proof fn lemma_node_is_told(node: NodeView, what: Seq<char>, text: Seq<char>)
    requires
        is_expression(text),
        node_reasons(node).contains(bound_reason(what, text)),
    ensures
        node_is_told(node, what, text),
{
    lemma_told(what, text);
    let i = choose|i: int|
        0 <= i < node_reasons(node).len() && node_reasons(node)[i] == bound_reason(what, text);
    assert(literal_errors(node)[i] is InvalidNodeConfig);
}

proof fn lemma_agent_is_told(agent: AgentDefinitionView, what: Seq<char>, text: Seq<char>)
    requires
        is_expression(text),
        definition_reasons(agent).contains(bound_reason(what, text)),
    ensures
        agent_is_told(agent, what, text),
{
    lemma_told(what, text);
    let i = choose|i: int|
        0 <= i < definition_reasons(agent).len() && definition_reasons(agent)[i] == bound_reason(
            what,
            text,
        );
    assert(definition_errors(agent)[i] is InvalidAgentDefinition);
}

/// An agent node whose agent is an expression is told so.
pub proof fn bound_agents_are_told(node: NodeView, name: Seq<char>)
    requires
        node.kind == NodeKind::Agent,
        node.config.text_at("agent_ref"@) == Some(name),
        is_expression(name),
    ensures
        node_is_told(node, "agent_ref"@, name),
{
    let own = bound_reasons("agent_ref"@, Some(name));
    let tools = items_at(node.config, "tools"@);
    let sources = items_at(node.config, "context"@);
    let reason = bound_reason("agent_ref"@, name);
    lemma_told("agent_ref"@, name);
    lemma_either_side(own, offers_reasons(tools, tools.len()), reason);
    lemma_either_side(
        own + offers_reasons(tools, tools.len()),
        blocks_reasons(sources, sources.len()),
        reason,
    );
    lemma_node_is_told(node, "agent_ref"@, name);
}

/// An agent node that offers a tool whose slug or connection is an expression is
/// told which, of every such tool.
pub proof fn bound_tools_are_told(node: NodeView, tools: Seq<JsonView>, i: int, text: Seq<char>)
    requires
        node.kind == NodeKind::Agent,
        node.config.get("tools"@) == Some(JsonView::Array(tools)),
        0 <= i < tools.len(),
        is_expression(text),
    ensures
        tools[i].text_at("slug"@) == Some(text) ==> node_is_told(node, "tools.slug"@, text),
        tools[i].text_at("connection_ref"@) == Some(text) ==> node_is_told(
            node,
            "tools.connection_ref"@,
            text,
        ),
{
    let own = bound_reasons("agent_ref"@, node.config.text_at("agent_ref"@));
    let sources = items_at(node.config, "context"@);
    let slugs = bound_reasons("tools.slug"@, tools[i].text_at("slug"@));
    let connections = bound_reasons(
        "tools.connection_ref"@,
        tools[i].text_at("connection_ref"@),
    );
    if tools[i].text_at("slug"@) == Some(text) {
        let reason = bound_reason("tools.slug"@, text);
        lemma_told("tools.slug"@, text);
        lemma_either_side(slugs, connections, reason);
        lemma_offer_is_among(tools, tools.len(), i, reason);
        lemma_either_side(own, offers_reasons(tools, tools.len()), reason);
        lemma_either_side(
            own + offers_reasons(tools, tools.len()),
            blocks_reasons(sources, sources.len()),
            reason,
        );
        lemma_node_is_told(node, "tools.slug"@, text);
    }
    if tools[i].text_at("connection_ref"@) == Some(text) {
        let reason = bound_reason("tools.connection_ref"@, text);
        lemma_told("tools.connection_ref"@, text);
        lemma_either_side(slugs, connections, reason);
        lemma_offer_is_among(tools, tools.len(), i, reason);
        lemma_either_side(own, offers_reasons(tools, tools.len()), reason);
        lemma_either_side(
            own + offers_reasons(tools, tools.len()),
            blocks_reasons(sources, sources.len()),
            reason,
        );
        lemma_node_is_told(node, "tools.connection_ref"@, text);
    }
}

/// An agent node that recalls from a scope that is an expression is told so, of
/// every such source.
pub proof fn bound_scopes_are_told(node: NodeView, sources: Seq<JsonView>, i: int, scope: Seq<char>)
    requires
        node.kind == NodeKind::Agent,
        node.config.get("context"@) == Some(JsonView::Array(sources)),
        0 <= i < sources.len(),
        sources[i].text_at("kind"@) == Some("memory"@),
        sources[i].text_at("scope"@) == Some(scope),
        is_expression(scope),
    ensures
        node_is_told(node, "context.scope"@, scope),
{
    let own = bound_reasons("agent_ref"@, node.config.text_at("agent_ref"@));
    let tools = items_at(node.config, "tools"@);
    let reason = bound_reason("context.scope"@, scope);
    lemma_told("context.scope"@, scope);
    lemma_block_is_among(sources, sources.len(), i, reason);
    lemma_either_side(
        own + offers_reasons(tools, tools.len()),
        blocks_reasons(sources, sources.len()),
        reason,
    );
    lemma_node_is_told(node, "context.scope"@, scope);
}

/// An agent whose definition grants a tool by an expression, or recalls from a scope
/// that is one, is told so, of every such tool and source.
pub proof fn bound_definitions_are_told(agent: AgentDefinitionView, i: int, text: Seq<char>)
    requires
        is_expression(text),
    ensures
        0 <= i < agent.tools.len() && agent.tools[i].slug == text ==> agent_is_told(
            agent,
            "tools.slug"@,
            text,
        ),
        0 <= i < agent.tools.len() && agent.tools[i].connection_ref == Some(text) ==> agent_is_told(
            agent,
            "tools.connection_ref"@,
            text,
        ),
        0 <= i < agent.context.len() && (
        agent.context[i].kind matches ContextSourceKindView::Memory { scope, .. } && scope == text)
            ==> agent_is_told(agent, "context.scope"@, text),
{
    let grants = grants_reasons(agent.tools, agent.tools.len());
    let sources = sources_reasons(agent.context, agent.context.len());
    lemma_told("tools.slug"@, text);
    lemma_told("tools.connection_ref"@, text);
    lemma_told("context.scope"@, text);
    if 0 <= i < agent.tools.len() {
        let grant = agent.tools[i];
        let slugs = bound_reasons("tools.slug"@, Some(grant.slug));
        let connections = bound_reasons("tools.connection_ref"@, grant.connection_ref);
        if grant.slug == text {
            let reason = bound_reason("tools.slug"@, text);
            lemma_either_side(slugs, connections, reason);
            lemma_grant_is_among(agent.tools, agent.tools.len(), i, reason);
            lemma_either_side(grants, sources, reason);
            lemma_agent_is_told(agent, "tools.slug"@, text);
        }
        if grant.connection_ref == Some(text) {
            let reason = bound_reason("tools.connection_ref"@, text);
            lemma_either_side(slugs, connections, reason);
            lemma_grant_is_among(agent.tools, agent.tools.len(), i, reason);
            lemma_either_side(grants, sources, reason);
            lemma_agent_is_told(agent, "tools.connection_ref"@, text);
        }
    }
    if 0 <= i < agent.context.len() && agent.context[i].kind is Memory
        && agent.context[i].kind->Memory_scope == text {
        let reason = bound_reason("context.scope"@, text);
        lemma_source_is_among(agent.context, agent.context.len(), i, reason);
        lemma_either_side(grants, sources, reason);
        lemma_agent_is_told(agent, "context.scope"@, text);
    }
}

} // verus!
