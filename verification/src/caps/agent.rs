//! The agent harness: what a node hands to a harness that runs named agents,
//! and what it gets back.
use vstd::prelude::*;

use crate::json::{count_json, member, members, object, Json, JsonView, NumberView};
use crate::model::agent::{AgentDefinition, ToolGrant, ToolGrantView};
use crate::store::transcript::{TranscriptEntry, TranscriptView};
use crate::text::{copy_opt, opt_str, opt_view, views};

verus! {

/// The model a run should use, as far as anyone stated a preference.
#[derive(Debug, Clone, PartialEq, Eq, Default)]
pub struct AgentModelSelection {
    pub model: Option<String>,
    pub provider: Option<String>,
}

#[verifier::ext_equal]
pub struct ModelView {
    pub model: Option<Seq<char>>,
    pub provider: Option<Seq<char>>,
}

impl View for AgentModelSelection {
    type V = ModelView;

    open spec fn view(&self) -> ModelView {
        ModelView { model: opt_view(self.model), provider: opt_view(self.provider) }
    }
}

impl AgentModelSelection {
    /// Whether nothing was selected, so the harness uses its own default.
    pub fn is_empty(&self) -> (r: bool)
        ensures
            r == (self@.model is None && self@.provider is None),
    {
        self.model.is_none() && self.provider.is_none()
    }
}

/// What the agent is asked to work on.
#[derive(Debug, PartialEq, Eq)]
pub struct AgentInput {
    /// The resolved prompt.
    pub text: String,
    /// Structured payloads beside the prompt.
    pub data: Vec<Json>,
}

#[verifier::ext_equal]
pub struct AgentInputView {
    pub text: Seq<char>,
    pub data: Seq<JsonView>,
}

impl View for AgentInput {
    type V = AgentInputView;

    open spec fn view(&self) -> AgentInputView {
        AgentInputView { text: self.text@, data: views(self.data@) }
    }
}

/// One resolved piece of context, ready for the harness to compose.
#[derive(Debug, PartialEq, Eq)]
pub struct ContextBlock {
    pub label: String,
    /// The name of the kind of source it was resolved from.
    pub source_kind: String,
    /// Prose, where the source gave prose.
    pub text: Option<String>,
    /// Structure, where the source gave structure; `null` otherwise.
    pub data: Json,
}

#[verifier::ext_equal]
pub struct ContextBlockView {
    pub label: Seq<char>,
    pub source_kind: Seq<char>,
    pub text: Option<Seq<char>>,
    pub data: JsonView,
}

impl View for ContextBlock {
    type V = ContextBlockView;

    open spec fn view(&self) -> ContextBlockView {
        ContextBlockView {
            label: self.label@,
            source_kind: self.source_kind@,
            text: opt_view(self.text),
            data: self.data@,
        }
    }
}

impl ContextBlock {
    /// A block of prose.
    pub fn text(label: &str, source_kind: &str, text: &str) -> (r: Self)
        ensures
            r@ == (ContextBlockView {
                label: label@,
                source_kind: source_kind@,
                text: Some(text@),
                data: JsonView::Null,
            }),
    {
        ContextBlock {
            label: label.to_owned(),
            source_kind: source_kind.to_owned(),
            text: Some(text.to_owned()),
            data: Json::Null,
        }
    }

    /// A block of structure.
    pub fn data(label: &str, source_kind: &str, data: Json) -> (r: Self)
        ensures
            r@ == (ContextBlockView {
                label: label@,
                source_kind: source_kind@,
                text: None,
                data: data@,
            }),
    {
        ContextBlock {
            label: label.to_owned(),
            source_kind: source_kind.to_owned(),
            text: None,
            data,
        }
    }
}

/// One tool an agent may call, as described to the harness.
#[derive(Debug, PartialEq, Eq)]
pub struct ToolDescriptor {
    pub slug: String,
    pub name: Option<String>,
    pub description: Option<String>,
    pub input_schema: Option<Json>,
    /// Trusted connection reference for calls to this tool.
    pub connection_ref: Option<String>,
}

#[verifier::ext_equal]
pub struct ToolDescriptorView {
    pub slug: Seq<char>,
    pub name: Option<Seq<char>>,
    pub description: Option<Seq<char>>,
    pub input_schema: Option<JsonView>,
    pub connection_ref: Option<Seq<char>>,
}

impl View for ToolDescriptor {
    type V = ToolDescriptorView;

    open spec fn view(&self) -> ToolDescriptorView {
        ToolDescriptorView {
            slug: self.slug@,
            name: opt_view(self.name),
            description: opt_view(self.description),
            input_schema: opt_view(self.input_schema),
            connection_ref: opt_view(self.connection_ref),
        }
    }
}

/// The undescribed tool a grant permits: its slug as written, with the grant's
/// own connection and else the fallback.
pub open spec fn granted_tool(
    grant: ToolGrantView,
    fallback: Option<Seq<char>>,
) -> ToolDescriptorView {
    ToolDescriptorView {
        slug: grant.slug,
        name: None,
        description: None,
        input_schema: None,
        connection_ref: if grant.connection_ref is Some {
            grant.connection_ref
        } else {
            fallback
        },
    }
}

impl ToolDescriptor {
    /// The undescribed tool a grant permits.
    pub fn from_grant(grant: &ToolGrant, fallback_conn: Option<&str>) -> (r: Self)
        ensures
            r@ == granted_tool(grant@, opt_str(fallback_conn)),
    {
        let connection_ref = match &grant.connection_ref {
            Some(own) => Some(own.clone()),
            None => match fallback_conn {
                Some(fallback) => Some(fallback.to_owned()),
                None => None,
            },
        };
        ToolDescriptor {
            slug: grant.slug.clone(),
            name: None,
            description: None,
            input_schema: None,
            connection_ref,
        }
    }
}

/// The undescribed tools a list of grants permits, in order.
pub open spec fn granted_tools(
    grants: Seq<ToolGrantView>,
    fallback: Option<Seq<char>>,
) -> Seq<ToolDescriptorView> {
    Seq::new(grants.len(), |i: int| granted_tool(grants[i], fallback))
}

/// What a harness that describes no tools of its own resolves grants to: one
/// undescribed tool per grant, with patterns forwarded as written.
pub fn resolve_tools(grants: &[ToolGrant], conn: Option<&str>) -> (r: Vec<ToolDescriptor>)
    ensures
        views(r@) == granted_tools(views(grants@), opt_str(conn)),
{
    let mut tools: Vec<ToolDescriptor> = Vec::new();
    let mut i: usize = 0;
    while i < grants.len()
        invariant
            i <= grants.len(),
            tools@.len() == i,
            forall|k: int|
                0 <= k < i ==> (#[trigger] tools@[k])@ == granted_tool(grants@[k]@, opt_str(conn)),
        decreases grants.len() - i,
    {
        tools.push(ToolDescriptor::from_grant(&grants[i], conn));
        i = i + 1;
    }
    assert(views(tools@) =~= granted_tools(views(grants@), opt_str(conn)));
    tools
}

/// Which run, node and item an agent run belongs to.
#[derive(Debug, Clone, PartialEq, Eq, Default)]
pub struct AgentRunIdentity {
    pub run_id: Option<String>,
    pub workflow_id: Option<String>,
    pub node_id: String,
    /// How deep in nested runs this one stands.
    pub depth: u32,
    /// The input item, where one turn runs per item.
    pub item_index: Option<usize>,
}

/// One agent run, fully assembled.
#[derive(Debug, PartialEq, Eq)]
pub struct AgentRunRequest {
    pub agent: AgentDefinition,
    pub model: AgentModelSelection,
    pub input: AgentInput,
    pub context: Vec<ContextBlock>,
    pub tools: Vec<ToolDescriptor>,
    pub connection_ref: Option<String>,
    pub working_dir: Option<String>,
    pub identity: AgentRunIdentity,
    /// Free-form members for the harness.
    pub metadata: Vec<(String, Json)>,
    pub output_schema: Option<Json>,
    /// The node's resolved configuration.
    pub config: Json,
}

/// The call a harness that only runs agents by id receives for a request: the
/// agent's id, the node's configuration as it stands, and the connection.
#[derive(Debug, PartialEq, Eq)]
pub struct AgentCall {
    pub agent_ref: String,
    pub request: Json,
    pub connection_ref: Option<String>,
}

impl AgentRunRequest {
    /// The call by id this request stands for.
    pub fn as_call(&self) -> (r: AgentCall)
        ensures
            r.agent_ref@ == self.agent@.id,
            r.request@ == self.config@,
            opt_view(r.connection_ref) == opt_view(self.connection_ref),
    {
        AgentCall {
            agent_ref: self.agent.id.clone(),
            request: self.config.clone(),
            connection_ref: copy_opt(&self.connection_ref),
        }
    }
}

/// Why an agent loop stopped.
#[derive(Debug, PartialEq, Eq)]
pub enum StopReason {
    /// The agent reached a final answer.
    Finished,
    /// A bound was hit first; the payload is partial.
    LimitStop { limit: String },
    /// The loop is waiting for something, and could be resumed.
    Paused { token: Option<String>, reason: String, payload: Json },
}

#[verifier::ext_equal]
pub enum StopView {
    Finished,
    LimitStop { limit: Seq<char> },
    Paused { token: Option<Seq<char>>, reason: Seq<char>, payload: JsonView },
}

impl View for StopReason {
    type V = StopView;

    open spec fn view(&self) -> StopView {
        match *self {
            StopReason::Finished => StopView::Finished,
            StopReason::LimitStop { limit } => StopView::LimitStop { limit: limit@ },
            StopReason::Paused { token, reason, payload } => StopView::Paused {
                token: opt_view(token),
                reason: reason@,
                payload: payload@,
            },
        }
    }
}

impl StopView {
    /// The stable name of the reason.
    pub open spec fn name(self) -> Seq<char> {
        match self {
            StopView::Finished => "finished"@,
            StopView::LimitStop { .. } => "limit_stop"@,
            StopView::Paused { .. } => "paused"@,
        }
    }
}

impl StopReason {
    /// The stable name of the reason.
    pub fn as_str(&self) -> (r: &'static str)
        ensures
            r@ == self@.name(),
    {
        match self {
            StopReason::Finished => "finished",
            StopReason::LimitStop { .. } => "limit_stop",
            StopReason::Paused { .. } => "paused",
        }
    }
}

/// What a run consumed, as far as the harness reports it.
#[derive(Debug, Clone, Copy, PartialEq, Eq, Default)]
pub struct AgentUsage {
    pub input_tokens: Option<u64>,
    pub output_tokens: Option<u64>,
    pub steps: Option<u32>,
    pub tool_calls: Option<u32>,
}

/// A count's member, where the count is known.
pub open spec fn counted(key: Seq<char>, count: Option<u64>) -> Seq<(Seq<char>, JsonView)> {
    match count {
        Some(n) => seq![(key, JsonView::Number(NumberView::PosInt(n)))],
        None => Seq::empty(),
    }
}

/// A count of either width as one of 64 bits.
pub open spec fn widened(count: Option<u32>) -> Option<u64> {
    match count {
        Some(n) => Some(n as u64),
        None => None,
    }
}

/// The usage as an object that holds what is known of it.
pub open spec fn usage_json(usage: AgentUsage) -> JsonView {
    JsonView::Object(
        counted("input_tokens"@, usage.input_tokens) + counted(
            "output_tokens"@,
            usage.output_tokens,
        ) + counted("steps"@, widened(usage.steps)) + counted(
            "tool_calls"@,
            widened(usage.tool_calls),
        ),
    )
}

fn push_count(entries: &mut Vec<(String, Json)>, key: &str, count: Option<u64>)
    ensures
        members(final(entries)@) == members(old(entries)@) + counted(key@, count),
{
    match count {
        Some(n) => {
            entries.push(member(key, count_json(n)));
        },
        None => {},
    }
    assert(members(entries@) =~= members(old(entries)@) + counted(key@, count));
}

impl AgentUsage {
    /// The usage as an object that holds what is known of it.
    pub fn to_json(&self) -> (r: Json)
        ensures
            r@ == usage_json(*self),
    {
        let steps: Option<u64> = match self.steps {
            Some(n) => Some(n as u64),
            None => None,
        };
        let tool_calls: Option<u64> = match self.tool_calls {
            Some(n) => Some(n as u64),
            None => None,
        };
        let mut entries: Vec<(String, Json)> = Vec::new();
        push_count(&mut entries, "input_tokens", self.input_tokens);
        push_count(&mut entries, "output_tokens", self.output_tokens);
        push_count(&mut entries, "steps", steps);
        push_count(&mut entries, "tool_calls", tool_calls);
        assert(members(entries@) =~= usage_json(*self)->Object_0);
        object(entries)
    }
}

/// How an agent run ended, and with what.
#[derive(Debug, PartialEq, Eq)]
pub struct AgentRunOutcome {
    pub stop: StopReason,
    /// The agent's prose.
    pub text: Option<String>,
    /// The agent's structured answer.
    pub json: Json,
    /// The reply as the harness gave it.
    pub raw: Json,
    pub usage: Option<AgentUsage>,
    /// What the agent did, in order, as far as the harness tells.
    pub transcript: Vec<TranscriptEntry>,
}

#[verifier::ext_equal]
pub struct OutcomeView {
    pub stop: StopView,
    pub text: Option<Seq<char>>,
    pub json: JsonView,
    pub raw: JsonView,
    pub usage: Option<AgentUsage>,
    pub transcript: Seq<TranscriptView>,
}

impl View for AgentRunOutcome {
    type V = OutcomeView;

    open spec fn view(&self) -> OutcomeView {
        OutcomeView {
            stop: self.stop@,
            text: opt_view(self.text),
            json: self.json@,
            raw: self.raw@,
            usage: self.usage,
            transcript: views(self.transcript@),
        }
    }
}

/// The prose of a reply: the reply itself where it is a text, and else its
/// `text` member.
pub open spec fn prose_of(value: JsonView) -> Option<Seq<char>> {
    match value {
        JsonView::String(text) => Some(text),
        _ => value.text_at("text"@),
    }
}

/// The structure of a reply: the reply itself where it is an object or an
/// array, and else nothing.
pub open spec fn structure_of(value: JsonView) -> JsonView {
    match value {
        JsonView::Object(_) => value,
        JsonView::Array(_) => value,
        _ => JsonView::Null,
    }
}

/// The prose of a reply.
pub fn prose(value: &Json) -> (r: Option<String>)
    ensures
        opt_view(r) == prose_of(value@),
{
    match value {
        Json::String(text) => Some(text.clone()),
        _ => value.text_copy("text"),
    }
}

/// The structure of a reply.
pub fn structure(value: &Json) -> (r: Json)
    ensures
        r@ == structure_of(value@),
{
    match value {
        Json::Object(_) => value.clone(),
        Json::Array(_) => value.clone(),
        _ => Json::Null,
    }
}

impl AgentRunOutcome {
    /// A finished run whose whole reply is `value`.
    pub fn finished(value: Json) -> (r: Self)
        ensures
            r@ == (OutcomeView {
                stop: StopView::Finished,
                text: prose_of(value@),
                json: structure_of(value@),
                raw: value@,
                usage: None,
                transcript: Seq::empty(),
            }),
    {
        let text = prose(&value);
        let json = structure(&value);
        let r = AgentRunOutcome {
            stop: StopReason::Finished,
            text,
            json,
            raw: value,
            usage: None,
            transcript: Vec::new(),
        };
        assert(r@.transcript =~= Seq::empty());
        r
    }

    /// Whether the agent reached a final answer.
    pub fn is_finished(&self) -> (r: bool)
        ensures
            r == (self@.stop is Finished),
    {
        match self.stop {
            StopReason::Finished => true,
            _ => false,
        }
    }
}

/// A grant never lends another tool's connection: the tool it resolves to has
/// the grant's own slug, and its connection is the grant's or the node's.
pub proof fn grants_use_trusted_connections(grant: ToolGrantView, node: Option<Seq<char>>)
    ensures
        granted_tool(grant, node).slug == grant.slug,
        grant.connection_ref is Some ==> granted_tool(grant, node).connection_ref
            == grant.connection_ref,
        grant.connection_ref is None ==> granted_tool(grant, node).connection_ref == node,
{
}

} // verus!
