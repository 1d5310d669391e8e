//! What an agent acts as and may reach: it is written out in a graph, and never
//! taken from what a run carries.
//!
//! A tool's slug, its connection, the agent a node names and the memory a
//! context reads are literals. An expression there would let upstream data
//! choose them.
use vstd::prelude::*;

use crate::error::{ErrorView, ValidationError};
use crate::json::{Json, JsonView};
use crate::model::agent::{
    AgentDefinition, AgentDefinitionView, ContextSource, ContextSourceKind, ContextSourceKindView,
    ContextSourceView, ToolGrant, ToolGrantView,
};
use crate::model::graph::{GraphView, Node, NodeKind, NodeView, WorkflowGraph};
use crate::text::{
    begins_with, debug_text, lemma_views_push, opt_str, opt_view, quoted, same, views,
};

verus! {

broadcast use lemma_views_push;

/// The text is an expression, resolved when a node runs.
pub open spec fn is_expression(text: Seq<char>) -> bool {
    "="@.is_prefix_of(text)
}

pub open spec fn bound_reason(what: Seq<char>, text: Seq<char>) -> Seq<char> {
    "`"@ + what + "` must be a literal, got the expression "@ + debug_text(text)
}

/// What is wrong with a text that has to be a literal, where there is one.
pub open spec fn bound_reasons(what: Seq<char>, text: Option<Seq<char>>) -> Seq<Seq<char>> {
    match text {
        Some(inner) => if is_expression(inner) {
            seq![bound_reason(what, inner)]
        } else {
            Seq::empty()
        },
        None => Seq::empty(),
    }
}

/// The items a list in a configuration holds; none where it is no list.
pub open spec fn items_at(config: JsonView, key: Seq<char>) -> Seq<JsonView> {
    match config.at(key).as_array() {
        Some(items) => items,
        None => Seq::empty(),
    }
}

/// What is wrong with a tool that a node offers.
pub open spec fn offer_reasons(tool: JsonView) -> Seq<Seq<char>> {
    bound_reasons("tools.slug"@, tool.text_at("slug"@)) + bound_reasons(
        "tools.connection_ref"@,
        tool.text_at("connection_ref"@),
    )
}

/// What is wrong with the first `n` tools that a node offers.
pub open spec fn offers_reasons(tools: Seq<JsonView>, n: nat) -> Seq<Seq<char>>
    decreases n,
{
    if n == 0 {
        Seq::empty()
    } else {
        offers_reasons(tools, (n - 1) as nat) + offer_reasons(tools[n - 1])
    }
}

/// What is wrong with a source of a node's context.
pub open spec fn block_reasons(source: JsonView) -> Seq<Seq<char>> {
    if source.text_at("kind"@) == Some("memory"@) {
        bound_reasons("context.scope"@, source.text_at("scope"@))
    } else {
        Seq::empty()
    }
}

/// What is wrong with the first `n` sources of a node's context.
pub open spec fn blocks_reasons(sources: Seq<JsonView>, n: nat) -> Seq<Seq<char>>
    decreases n,
{
    if n == 0 {
        Seq::empty()
    } else {
        blocks_reasons(sources, (n - 1) as nat) + block_reasons(sources[n - 1])
    }
}

/// What an agent node should have written out.
pub open spec fn node_reasons(node: NodeView) -> Seq<Seq<char>> {
    if node.kind != NodeKind::Agent {
        Seq::empty()
    } else {
        let tools = items_at(node.config, "tools"@);
        let sources = items_at(node.config, "context"@);
        bound_reasons("agent_ref"@, node.config.text_at("agent_ref"@)) + offers_reasons(
            tools,
            tools.len(),
        ) + blocks_reasons(sources, sources.len())
    }
}

/// What is wrong with a tool that is granted.
pub open spec fn grant_reasons(grant: ToolGrantView) -> Seq<Seq<char>> {
    bound_reasons("tools.slug"@, Some(grant.slug)) + bound_reasons(
        "tools.connection_ref"@,
        grant.connection_ref,
    )
}

/// What is wrong with the first `n` tools that are granted.
pub open spec fn grants_reasons(grants: Seq<ToolGrantView>, n: nat) -> Seq<Seq<char>>
    decreases n,
{
    if n == 0 {
        Seq::empty()
    } else {
        grants_reasons(grants, (n - 1) as nat) + grant_reasons(grants[n - 1])
    }
}

/// What is wrong with a source of an agent's context.
pub open spec fn source_reasons(source: ContextSourceView) -> Seq<Seq<char>> {
    match source.kind {
        ContextSourceKindView::Memory { scope, .. } => bound_reasons(
            "context.scope"@,
            Some(scope),
        ),
        _ => Seq::empty(),
    }
}

/// What is wrong with the first `n` sources of an agent's context.
pub open spec fn sources_reasons(sources: Seq<ContextSourceView>, n: nat) -> Seq<Seq<char>>
    decreases n,
{
    if n == 0 {
        Seq::empty()
    } else {
        sources_reasons(sources, (n - 1) as nat) + source_reasons(sources[n - 1])
    }
}

/// What an agent's definition should have written out.
pub open spec fn definition_reasons(agent: AgentDefinitionView) -> Seq<Seq<char>> {
    grants_reasons(agent.tools, agent.tools.len()) + sources_reasons(
        agent.context,
        agent.context.len(),
    )
}

/// The problems of an agent node.
pub open spec fn literal_errors(node: NodeView) -> Seq<ErrorView> {
    Seq::new(
        node_reasons(node).len(),
        |i: int| ErrorView::InvalidNodeConfig { node: node.id, reason: node_reasons(node)[i] },
    )
}

/// The problems of an agent's definition.
pub open spec fn definition_errors(agent: AgentDefinitionView) -> Seq<ErrorView> {
    Seq::new(
        definition_reasons(agent).len(),
        |i: int|
            ErrorView::InvalidAgentDefinition {
                agent: agent.id,
                reason: definition_reasons(agent)[i],
            },
    )
}

/// The problems of the first `n` agents a graph defines, in order.
pub open spec fn agents_errors(g: GraphView, n: nat) -> Seq<ErrorView>
    decreases n,
{
    if n == 0 {
        Seq::empty()
    } else {
        agents_errors(g, (n - 1) as nat) + definition_errors(g.agents[n - 1])
    }
}

/// Whether the text is an expression.
pub fn bound(text: &str) -> (r: bool)
    ensures
        r == is_expression(text@),
{
    begins_with(text, "=")
}

fn require_literal(what: &str, text: Option<&str>, reasons: &mut Vec<String>)
    ensures
        views(final(reasons)@) == views(old(reasons)@) + bound_reasons(what@, opt_str(text)),
{
    match text {
        Some(inner) => {
            if bound(inner) {
                let mut reason = "`".to_owned();
                reason.append(what);
                reason.append("` must be a literal, got the expression ");
                reason.append(quoted(inner).as_str());
                reasons.push(reason);
            }
        },
        None => {},
    }
    assert(views(reasons@) =~= views(old(reasons)@) + bound_reasons(what@, opt_str(text)));
}

fn check_offers(tools: &Vec<Json>, reasons: &mut Vec<String>)
    ensures
        views(final(reasons)@) == views(old(reasons)@) + offers_reasons(
            views(tools@),
            tools@.len(),
        ),
{
    let ghost all = views(tools@);
    let mut i: usize = 0;
    assert(views(reasons@) =~= views(old(reasons)@) + offers_reasons(all, 0));
    while i < tools.len()
        invariant
            i <= tools@.len(),
            all == views(tools@),
            views(reasons@) == views(old(reasons)@) + offers_reasons(all, i as nat),
        decreases tools@.len() - i,
    {
        assert(all[i as int] == tools@[i as int]@);
        require_literal("tools.slug", tools[i].text_at("slug"), reasons);
        require_literal("tools.connection_ref", tools[i].text_at("connection_ref"), reasons);
        assert(views(reasons@) =~= views(old(reasons)@) + offers_reasons(all, (i + 1) as nat));
        i = i + 1;
    }
}

fn check_blocks(sources: &Vec<Json>, reasons: &mut Vec<String>)
    ensures
        views(final(reasons)@) == views(old(reasons)@) + blocks_reasons(
            views(sources@),
            sources@.len(),
        ),
{
    let ghost all = views(sources@);
    let mut i: usize = 0;
    assert(views(reasons@) =~= views(old(reasons)@) + blocks_reasons(all, 0));
    while i < sources.len()
        invariant
            i <= sources@.len(),
            all == views(sources@),
            views(reasons@) == views(old(reasons)@) + blocks_reasons(all, i as nat),
        decreases sources@.len() - i,
    {
        assert(all[i as int] == sources@[i as int]@);
        let recalls = match sources[i].text_at("kind") {
            Some(kind) => same(kind, "memory"),
            None => false,
        };
        if recalls {
            require_literal("context.scope", sources[i].text_at("scope"), reasons);
        }
        assert(views(reasons@) =~= views(old(reasons)@) + blocks_reasons(all, (i + 1) as nat));
        i = i + 1;
    }
}

fn list_at<'a>(config: &'a Json, key: &str) -> (r: Option<&'a Vec<Json>>)
    ensures
        match r {
            Some(items) => items_at(config@, key@) == views(items@),
            None => items_at(config@, key@) == Seq::<JsonView>::empty(),
        },
{
    match config.get(key) {
        Some(value) => value.as_array(),
        None => None,
    }
}

/// Reports what an agent node should have written out.
pub fn check_literals(node: &Node, errors: &mut Vec<ValidationError>)
    ensures
        views(final(errors)@) == views(old(errors)@) + literal_errors(node@),
{
    let mut reasons: Vec<String> = Vec::new();
    assert(views(reasons@) =~= Seq::empty());
    if node.kind == NodeKind::Agent {
        require_literal("agent_ref", node.config.text_at("agent_ref"), &mut reasons);
        let ghost named = views(reasons@);
        match list_at(&node.config, "tools") {
            Some(tools) => check_offers(tools, &mut reasons),
            None => {},
        }
        let ghost offered = views(reasons@);
        let ghost tools = items_at(node@.config, "tools"@);
        assert(offered =~= named + offers_reasons(tools, tools.len()));
        match list_at(&node.config, "context") {
            Some(sources) => check_blocks(sources, &mut reasons),
            None => {},
        }
        let ghost sources = items_at(node@.config, "context"@);
        assert(views(reasons@) =~= offered + blocks_reasons(sources, sources.len()));
        assert(views(reasons@) =~= node_reasons(node@));
    }
    let ghost told = views(reasons@);
    let mut i: usize = 0;
    while i < reasons.len()
        invariant
            i <= reasons@.len(),
            told == views(reasons@),
            told == node_reasons(node@),
            views(errors@) == views(old(errors)@) + literal_errors(node@).take(i as int),
        decreases reasons@.len() - i,
    {
        assert(told[i as int] == reasons@[i as int]@);
        let ghost before = views(errors@);
        let error = ValidationError::InvalidNodeConfig {
            node: node.id.clone(),
            reason: reasons[i].clone(),
        };
        errors.push(error);
        assert(error@ == literal_errors(node@)[i as int]);
        assert(views(errors@) =~= before.push(error@));
        assert(views(errors@) =~= views(old(errors)@) + literal_errors(node@).take(i + 1));
        i = i + 1;
    }
    assert(literal_errors(node@).take(i as int) =~= literal_errors(node@));
}

fn check_grants(grants: &Vec<ToolGrant>, reasons: &mut Vec<String>)
    ensures
        views(final(reasons)@) == views(old(reasons)@) + grants_reasons(
            views(grants@),
            grants@.len(),
        ),
{
    let ghost all = views(grants@);
    let mut i: usize = 0;
    assert(views(reasons@) =~= views(old(reasons)@) + grants_reasons(all, 0));
    while i < grants.len()
        invariant
            i <= grants@.len(),
            all == views(grants@),
            views(reasons@) == views(old(reasons)@) + grants_reasons(all, i as nat),
        decreases grants@.len() - i,
    {
        assert(all[i as int] == grants@[i as int]@);
        require_literal("tools.slug", Some(grants[i].slug.as_str()), reasons);
        let connection = match &grants[i].connection_ref {
            Some(name) => Some(name.as_str()),
            None => None,
        };
        assert(opt_str(connection) == opt_view(grants@[i as int].connection_ref));
        require_literal("tools.connection_ref", connection, reasons);
        assert(views(reasons@) =~= views(old(reasons)@) + grants_reasons(all, (i + 1) as nat));
        i = i + 1;
    }
}

fn check_sources(sources: &Vec<ContextSource>, reasons: &mut Vec<String>)
    ensures
        views(final(reasons)@) == views(old(reasons)@) + sources_reasons(
            views(sources@),
            sources@.len(),
        ),
{
    let ghost all = views(sources@);
    let mut i: usize = 0;
    assert(views(reasons@) =~= views(old(reasons)@) + sources_reasons(all, 0));
    while i < sources.len()
        invariant
            i <= sources@.len(),
            all == views(sources@),
            views(reasons@) == views(old(reasons)@) + sources_reasons(all, i as nat),
        decreases sources@.len() - i,
    {
        assert(all[i as int] == sources@[i as int]@);
        match &sources[i].kind {
            ContextSourceKind::Memory { scope, .. } => {
                require_literal("context.scope", Some(scope.as_str()), reasons);
            },
            _ => {},
        }
        assert(views(reasons@) =~= views(old(reasons)@) + sources_reasons(all, (i + 1) as nat));
        i = i + 1;
    }
}

fn check_definition(agent: &AgentDefinition, errors: &mut Vec<ValidationError>)
    ensures
        views(final(errors)@) == views(old(errors)@) + definition_errors(agent@),
{
    let mut reasons: Vec<String> = Vec::new();
    assert(views(reasons@) =~= Seq::empty());
    check_grants(&agent.tools, &mut reasons);
    check_sources(&agent.context, &mut reasons);
    assert(views(reasons@) =~= definition_reasons(agent@));
    let ghost told = views(reasons@);
    let mut i: usize = 0;
    while i < reasons.len()
        invariant
            i <= reasons@.len(),
            told == views(reasons@),
            told == definition_reasons(agent@),
            views(errors@) == views(old(errors)@) + definition_errors(agent@).take(i as int),
        decreases reasons@.len() - i,
    {
        assert(told[i as int] == reasons@[i as int]@);
        let ghost before = views(errors@);
        let error = ValidationError::InvalidAgentDefinition {
            agent: agent.id.clone(),
            reason: reasons[i].clone(),
        };
        errors.push(error);
        assert(error@ == definition_errors(agent@)[i as int]);
        assert(views(errors@) =~= before.push(error@));
        assert(views(errors@) =~= views(old(errors)@) + definition_errors(agent@).take(i + 1));
        i = i + 1;
    }
    assert(definition_errors(agent@).take(i as int) =~= definition_errors(agent@));
}

/// Reports what the agents a graph defines should have written out.
pub fn check_agents(graph: &WorkflowGraph, errors: &mut Vec<ValidationError>)
    ensures
        views(final(errors)@) == views(old(errors)@) + agents_errors(graph@, graph@.agents.len()),
{
    let mut i: usize = 0;
    assert(views(errors@) =~= views(old(errors)@) + agents_errors(graph@, 0));
    while i < graph.agents.len()
        invariant
            i <= graph.agents@.len(),
            views(errors@) == views(old(errors)@) + agents_errors(graph@, i as nat),
        decreases graph.agents@.len() - i,
    {
        assert(graph@.agents[i as int] == graph.agents@[i as int]@);
        check_definition(&graph.agents[i], errors);
        assert(views(errors@) =~= views(old(errors)@) + agents_errors(graph@, (i + 1) as nat));
        i = i + 1;
    }
}

/// A list of tools with no problem holds no expression.
pub proof fn lemma_offers_literal(tools: Seq<JsonView>, n: nat, i: int)
    requires
        offers_reasons(tools, n).len() == 0,
        0 <= i < n,
    ensures
        tools[i].text_at("slug"@) matches Some(slug) ==> !is_expression(slug),
        tools[i].text_at("connection_ref"@) matches Some(name) ==> !is_expression(name),
    decreases n,
{
    if i < n - 1 {
        lemma_offers_literal(tools, (n - 1) as nat, i);
    } else {
        assert(offer_reasons(tools[i]).len() == 0);
    }
}

/// A list of grants with no problem holds no expression.
pub proof fn lemma_grants_literal(grants: Seq<ToolGrantView>, n: nat, i: int)
    requires
        grants_reasons(grants, n).len() == 0,
        0 <= i < n,
    ensures
        !is_expression(grants[i].slug),
        grants[i].connection_ref matches Some(name) ==> !is_expression(name),
    decreases n,
{
    if i < n - 1 {
        lemma_grants_literal(grants, (n - 1) as nat, i);
    } else {
        assert(grant_reasons(grants[i]).len() == 0);
    }
}

/// A node's context with no problem recalls from no scope that is an expression.
pub proof fn lemma_blocks_literal(sources: Seq<JsonView>, n: nat, i: int)
    requires
        blocks_reasons(sources, n).len() == 0,
        0 <= i < n,
        sources[i].text_at("kind"@) == Some("memory"@),
    ensures
        sources[i].text_at("scope"@) matches Some(scope) ==> !is_expression(scope),
    decreases n,
{
    if i < n - 1 {
        lemma_blocks_literal(sources, (n - 1) as nat, i);
    } else {
        assert(block_reasons(sources[i]).len() == 0);
    }
}

/// An agent's context with no problem recalls from no scope that is an
/// expression.
pub proof fn lemma_sources_literal(sources: Seq<ContextSourceView>, n: nat, i: int)
    requires
        sources_reasons(sources, n).len() == 0,
        0 <= i < n,
    ensures
        sources[i].kind matches ContextSourceKindView::Memory { scope, .. } ==> !is_expression(
            scope,
        ),
    decreases n,
{
    if i < n - 1 {
        lemma_sources_literal(sources, (n - 1) as nat, i);
    } else {
        assert(source_reasons(sources[i]).len() == 0);
    }
}

/// Where no agent has a problem, each is in order.
pub proof fn lemma_no_agent_errors(g: GraphView, n: nat, i: int)
    requires
        agents_errors(g, n).len() == 0,
        0 <= i < n,
    ensures
        definition_reasons(g.agents[i]).len() == 0,
    decreases n,
{
    if i < n - 1 {
        lemma_no_agent_errors(g, (n - 1) as nat, i);
    } else {
        assert(definition_errors(g.agents[i]).len() == 0);
    }
}

} // verus!
