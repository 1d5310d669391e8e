//! The `agent` node: one model turn, or one run of a named agent, with an
//! optional tool hop and an optional output parser.
//!
//! A turn is a sequence of steps. Each step says what the host has to do next,
//! and the function named after the reply says what follows from it.
use vstd::prelude::*;

use crate::caps::agent::{
    prose, prose_of, structure, structure_of, usage_json, AgentRunOutcome, OutcomeView, StopReason,
    StopView,
};
use crate::data::{first_json, payloads, plain_item, Item, ItemView};
use crate::json::{
    copy_members, member, members, object, opt_text, set_member, text_json, text_or_null,
    with_member, Json, JsonView,
};
use crate::nodes::{
    execution_mode, expr_scope, expr_scope_for, main_output, mode_of, nodes_scope_of, scope_of, ContextView,
    EngineError, EngineErrorView, ExecutionMode, NodeContext, NodeOutput, NodeOutputView,
    NullResolution, NullResolutionView,
};
use crate::store::transcript::{TranscriptEntry, TranscriptView};
use crate::text::{copy_opt, opt_view, same, views};

verus! {

/// What is already known of the emitted envelope while a turn is under way.
#[derive(Debug, PartialEq, Eq)]
pub struct Pending {
    pub text: Option<String>,
    pub raw: Json,
    /// Where a named agent ran: how it stopped, and what it used.
    pub meta: Option<Json>,
    /// What that agent did.
    pub transcript: Vec<TranscriptEntry>,
}

#[verifier::ext_equal]
pub struct PendingView {
    pub text: Option<Seq<char>>,
    pub raw: JsonView,
    pub meta: Option<JsonView>,
    pub transcript: Seq<TranscriptView>,
}

impl View for Pending {
    type V = PendingView;

    open spec fn view(&self) -> PendingView {
        PendingView {
            text: opt_view(self.text),
            raw: self.raw@,
            meta: opt_view(self.meta),
            transcript: views(self.transcript@),
        }
    }
}

/// What a turn does next.
#[derive(Debug, PartialEq, Eq)]
pub enum AgentStep {
    /// Run the named agent, then call [`finish_agent_run`].
    RunAgent { agent_ref: String },
    /// Resolve the declared context sources, then call [`with_context`].
    ResolveContext { sources: Json },
    /// Ask the model, then call [`after_completion`].
    Complete { request: Json, connection: Option<String> },
    /// Call the tool, then call [`after_tool`].
    InvokeTool {
        slug: String,
        args: Json,
        connection: Option<String>,
        value: Json,
        pending: Pending,
    },
    /// Validate the value, repairing it where allowed, then call
    /// [`after_parse`].
    Parse {
        value: Json,
        schema: Json,
        auto_fix: bool,
        connection: Option<String>,
        pending: Pending,
    },
    /// Emit the item, and keep what the agent did.
    Emit { item: Item, transcript: Vec<TranscriptEntry> },
    /// Fail the node.
    Fail { error: EngineError },
}

#[verifier::ext_equal]
pub enum StepView {
    RunAgent { agent_ref: Seq<char> },
    ResolveContext { sources: JsonView },
    Complete { request: JsonView, connection: Option<Seq<char>> },
    InvokeTool {
        slug: Seq<char>,
        args: JsonView,
        connection: Option<Seq<char>>,
        value: JsonView,
        pending: PendingView,
    },
    Parse {
        value: JsonView,
        schema: JsonView,
        auto_fix: bool,
        connection: Option<Seq<char>>,
        pending: PendingView,
    },
    Emit { item: ItemView, transcript: Seq<TranscriptView> },
    Fail { error: EngineErrorView },
}

impl View for AgentStep {
    type V = StepView;

    open spec fn view(&self) -> StepView {
        match *self {
            AgentStep::RunAgent { agent_ref } => StepView::RunAgent { agent_ref: agent_ref@ },
            AgentStep::ResolveContext { sources } => StepView::ResolveContext {
                sources: sources@,
            },
            AgentStep::Complete { request, connection } => StepView::Complete {
                request: request@,
                connection: opt_view(connection),
            },
            AgentStep::InvokeTool { slug, args, connection, value, pending } => {
                StepView::InvokeTool {
                    slug: slug@,
                    args: args@,
                    connection: opt_view(connection),
                    value: value@,
                    pending: pending@,
                }
            },
            AgentStep::Parse { value, schema, auto_fix, connection, pending } => StepView::Parse {
                value: value@,
                schema: schema@,
                auto_fix,
                connection: opt_view(connection),
                pending: pending@,
            },
            AgentStep::Emit { item, transcript } => StepView::Emit {
                item: item@,
                transcript: views(transcript@),
            },
            AgentStep::Fail { error } => StepView::Fail { error: error@ },
        }
    }
}

/// The agent a configuration names; an empty name is none.
pub open spec fn named_agent(cfg: JsonView) -> Option<Seq<char>> {
    match cfg.text_at("agent_ref"@) {
        Some(name) => if name.len() > 0 {
            Some(name)
        } else {
            None
        },
        None => None,
    }
}

/// The agent a configuration names; an empty name is none.
pub fn agent_ref_of(cfg: &Json) -> (r: Option<String>)
    ensures
        opt_view(r) == named_agent(cfg@),
{
    match cfg.text_at("agent_ref") {
        Some(name) => if name.is_empty() {
            None
        } else {
            Some(name.to_owned())
        },
        None => None,
    }
}

/// A member that is there and is not `null`.
pub open spec fn set_at(value: JsonView, key: Seq<char>) -> Option<JsonView> {
    match value.get(key) {
        Some(inner) => if inner is Null {
            None
        } else {
            Some(inner)
        },
        None => None,
    }
}

/// A member that is there and is not `null`.
fn set_member_of<'a>(value: &'a Json, key: &str) -> (r: Option<&'a Json>)
    ensures
        match r {
            Some(inner) => set_at(value@, key@) == Some(inner@),
            None => set_at(value@, key@) is None,
        },
{
    match value.get(key) {
        Some(inner) => match inner {
            Json::Null => None,
            _ => Some(inner),
        },
        None => None,
    }
}

/// The connection a configuration names for its own calls.
pub open spec fn connection_of(cfg: JsonView) -> Option<Seq<char>> {
    cfg.text_at("connection_ref"@)
}

/// The connection `own` names, and else the configuration's.
pub open spec fn connection_for(own: JsonView, cfg: JsonView) -> Option<Seq<char>> {
    match connection_of(own) {
        Some(named) => Some(named),
        None => connection_of(cfg),
    }
}

fn connection(own: &Json, cfg: &Json) -> (r: Option<String>)
    ensures
        opt_view(r) == connection_for(own@, cfg@),
{
    match own.text_copy("connection_ref") {
        Some(named) => Some(named),
        None => cfg.text_copy("connection_ref"),
    }
}

/// The step a turn begins with: the named agent where one is named and a
/// harness is there to run it; else the completion, after the declared context
/// has been resolved.
pub open spec fn first_step(cfg: JsonView, has_runner: bool) -> StepView {
    if named_agent(cfg) is Some && has_runner {
        StepView::RunAgent { agent_ref: named_agent(cfg)->0 }
    } else if set_at(cfg, "context"@) is Some {
        StepView::ResolveContext { sources: set_at(cfg, "context"@)->0 }
    } else {
        StepView::Complete { request: cfg, connection: connection_of(cfg) }
    }
}

/// Begins a turn against a resolved configuration. `has_runner` says whether
/// the host can run named agents.
pub fn run_turn(cfg: &Json, has_runner: bool) -> (r: AgentStep)
    ensures
        r@ == first_step(cfg@, has_runner),
{
    if has_runner {
        match agent_ref_of(cfg) {
            Some(agent_ref) => {
                return AgentStep::RunAgent { agent_ref };
            },
            None => {},
        }
    }
    match set_member_of(cfg, "context") {
        Some(sources) => AgentStep::ResolveContext { sources: sources.clone() },
        None => AgentStep::Complete {
            request: cfg.clone(),
            connection: cfg.text_copy("connection_ref"),
        },
    }
}

/// A configuration with its declared context replaced by what it resolved to.
pub open spec fn contextual(cfg: JsonView, blocks: JsonView) -> JsonView {
    match cfg {
        JsonView::Object(entries) => JsonView::Object(with_member(entries, "context"@, blocks)),
        _ => cfg,
    }
}

/// What follows once the declared context has been resolved to `blocks`.
pub open spec fn step_with_context(cfg: JsonView, blocks: JsonView) -> StepView {
    StepView::Complete { request: contextual(cfg, blocks), connection: connection_of(cfg) }
}

/// Asks for the completion once the declared context has been resolved to
/// `blocks`.
pub fn with_context(cfg: &Json, blocks: Json) -> (r: AgentStep)
    ensures
        r@ == step_with_context(cfg@, blocks@),
{
    let request = match cfg.as_object() {
        Some(entries) => {
            let mut copies = copy_members(entries);
            set_member(&mut copies, "context", blocks);
            object(copies)
        },
        None => cfg.clone(),
    };
    AgentStep::Complete { request, connection: cfg.text_copy("connection_ref") }
}

/// Position `i` is the first tool with the slug.
pub open spec fn is_offered(tools: Seq<JsonView>, slug: Seq<char>, i: int) -> bool {
    &&& 0 <= i < tools.len()
    &&& tools[i].text_at("slug"@) == Some(slug)
    &&& forall|k: int| 0 <= k < i ==> (#[trigger] tools[k]).text_at("slug"@) != Some(slug)
}

/// The first tool with the slug.
pub open spec fn offered(tools: Seq<JsonView>, slug: Seq<char>) -> Option<JsonView>
    decreases tools.len(),
{
    if tools.len() == 0 {
        None
    } else if tools[0].text_at("slug"@) == Some(slug) {
        Some(tools[0])
    } else {
        offered(tools.drop_first(), slug)
    }
}

proof fn lemma_offered(tools: Seq<JsonView>, slug: Seq<char>, n: int)
    requires
        0 <= n <= tools.len(),
        forall|k: int| 0 <= k < n ==> (#[trigger] tools[k]).text_at("slug"@) != Some(slug),
    ensures
        offered(tools, slug) == offered(tools.skip(n), slug),
    decreases n,
{
    if n == 0 {
        assert(tools.skip(0) =~= tools);
    } else {
        let rest = tools.drop_first();
        assert forall|k: int| 0 <= k < n - 1 implies (#[trigger] rest[k]).text_at("slug"@) != Some(
            slug,
        ) by {
            assert(rest[k] == tools[k + 1]);
        }
        lemma_offered(rest, slug, n - 1);
        assert(rest.skip(n - 1) =~= tools.skip(n));
    }
}

fn find_offered<'a>(tools: &'a Vec<Json>, slug: &str) -> (r: Option<&'a Json>)
    ensures
        match r {
            Some(tool) => offered(views(tools@), slug@) == Some(tool@),
            None => offered(views(tools@), slug@) is None,
        },
{
    let ghost all = views(tools@);
    let mut i: usize = 0;
    while i < tools.len()
        invariant
            i <= tools.len(),
            all == views(tools@),
            forall|k: int| 0 <= k < i ==> (#[trigger] all[k]).text_at("slug"@) != Some(slug@),
        decreases tools.len() - i,
    {
        assert(all[i as int] == tools@[i as int]@);
        match tools[i].text_at("slug") {
            Some(own) => {
                if same(own, slug) {
                    proof {
                        lemma_offered(all, slug@, i as int);
                        assert(all.skip(i as int)[0] == all[i as int]);
                    }
                    return Some(&tools[i]);
                }
            },
            None => {},
        }
        i = i + 1;
    }
    proof {
        lemma_offered(all, slug@, all.len() as int);
    }
    None
}

/// The slug of the tool a reply elects, and that tool as the configuration
/// offers it; nothing where the reply elects none that is offered.
pub open spec fn elected(cfg: JsonView, response: JsonView) -> Option<(Seq<char>, JsonView)> {
    match response.get("tool_call"@) {
        Some(call) => match call.text_at("slug"@) {
            Some(slug) => match cfg.get("tools"@) {
                Some(tools) => match tools.as_array() {
                    Some(list) => match offered(list, slug) {
                        Some(tool) => Some((slug, tool)),
                        None => None,
                    },
                    None => None,
                },
                None => None,
            },
            None => None,
        },
        None => None,
    }
}

fn elect<'a>(cfg: &'a Json, response: &Json) -> (r: Option<(String, &'a Json)>)
    ensures
        match r {
            Some(found) => elected(cfg@, response@) == Some((found.0@, found.1@)),
            None => elected(cfg@, response@) is None,
        },
{
    let call = match response.get("tool_call") {
        Some(call) => call,
        None => {
            return None;
        },
    };
    let slug = match call.text_at("slug") {
        Some(slug) => slug,
        None => {
            return None;
        },
    };
    let tools = match cfg.get("tools") {
        Some(tools) => tools,
        None => {
            return None;
        },
    };
    match tools.as_array() {
        Some(list) => match find_offered(list, slug) {
            Some(tool) => Some((slug.to_owned(), tool)),
            None => None,
        },
        None => None,
    }
}

/// The envelope a turn emits: structure, prose and the reply as given, with
/// what is known of the agent run.
pub open spec fn envelope(value: JsonView, pending: PendingView) -> JsonView {
    let parts = seq![
        ("json"@, structure_of(value)),
        ("text"@, text_or_null(pending.text)),
        ("raw"@, pending.raw),
    ];
    match pending.meta {
        Some(meta) => JsonView::Object(parts.push(("meta"@, meta))),
        None => JsonView::Object(parts),
    }
}

/// The end of a turn: the envelope, and what the agent did.
pub open spec fn ending(value: JsonView, pending: PendingView) -> StepView {
    StepView::Emit {
        item: plain_item(envelope(value, pending)),
        transcript: pending.transcript,
    }
}

/// Emits the envelope of a value.
fn emit(value: &Json, pending: Pending) -> (r: AgentStep)
    ensures
        r@ == ending(value@, pending@),
{
    let mut entries: Vec<(String, Json)> = Vec::new();
    entries.push(member("json", structure(value)));
    entries.push(member("text", opt_text(&pending.text)));
    entries.push(member("raw", pending.raw.clone()));
    match &pending.meta {
        Some(meta) => {
            entries.push(member("meta", meta.clone()));
        },
        None => {},
    }
    assert(members(entries@) =~= envelope(value@, pending@)->Object_0);
    AgentStep::Emit { item: Item::new(object(entries)), transcript: pending.transcript }
}

/// The schema a configuration's output parser validates against.
pub open spec fn parser_schema(cfg: JsonView) -> Option<JsonView> {
    match set_at(cfg, "output_parser"@) {
        Some(parser) => set_at(parser, "schema"@),
        None => None,
    }
}

/// The parser may repair what it rejects, unless it is told not to.
pub open spec fn may_fix(parser: JsonView) -> bool {
    parser.get("auto_fix"@) != Some(JsonView::Bool(false))
}

/// What follows once the value of a turn is known: the output parser where one
/// is configured, and else the envelope.
pub open spec fn parse_or_emit(cfg: JsonView, value: JsonView, pending: PendingView) -> StepView {
    match parser_schema(cfg) {
        Some(schema) => StepView::Parse {
            value,
            schema,
            auto_fix: may_fix(cfg.at("output_parser"@)),
            connection: connection_for(cfg.at("output_parser"@), cfg),
            pending,
        },
        None => ending(value, pending),
    }
}

fn finish_value(cfg: &Json, value: Json, pending: Pending) -> (r: AgentStep)
    ensures
        r@ == parse_or_emit(cfg@, value@, pending@),
{
    match set_member_of(cfg, "output_parser") {
        Some(parser) => match set_member_of(parser, "schema") {
            Some(schema) => {
                let auto_fix = match parser.get("auto_fix") {
                    Some(fix) => match fix.as_bool() {
                        Some(asked) => asked,
                        None => true,
                    },
                    None => true,
                };
                AgentStep::Parse {
                    value,
                    schema: schema.clone(),
                    auto_fix,
                    connection: connection(parser, cfg),
                    pending,
                }
            },
            None => emit(&value, pending),
        },
        None => emit(&value, pending),
    }
}

/// What is known of the envelope once the model has replied.
pub open spec fn reply_pending(response: JsonView) -> PendingView {
    PendingView {
        text: prose_of(response),
        raw: response,
        meta: None,
        transcript: Seq::empty(),
    }
}

/// What follows the model's reply: a single call of the tool it elects, where
/// that tool was offered, and else the end of the turn.
pub open spec fn step_after_completion(cfg: JsonView, response: JsonView) -> StepView {
    match elected(cfg, response) {
        Some(found) => StepView::InvokeTool {
            slug: found.0,
            args: response.at("tool_call"@).at("args"@),
            connection: connection_for(found.1, cfg),
            value: response,
            pending: reply_pending(response),
        },
        None => parse_or_emit(cfg, response, reply_pending(response)),
    }
}

/// Goes on from the model's reply.
pub fn after_completion(cfg: &Json, response: Json) -> (r: AgentStep)
    ensures
        r@ == step_after_completion(cfg@, response@),
{
    let pending = Pending {
        text: prose(&response),
        raw: response.clone(),
        meta: None,
        transcript: Vec::new(),
    };
    assert(pending@.transcript =~= Seq::empty());
    match elect(cfg, &response) {
        Some(found) => {
            let args = match response.get("tool_call") {
                Some(call) => call.at("args"),
                None => Json::Null,
            };
            AgentStep::InvokeTool {
                slug: found.0,
                args,
                connection: connection(found.1, cfg),
                value: response,
                pending,
            }
        },
        None => finish_value(cfg, response, pending),
    }
}

/// A reply with the result of its tool call, where the reply is an object.
pub open spec fn with_result(value: JsonView, result: JsonView) -> JsonView {
    match value {
        JsonView::Object(entries) => JsonView::Object(
            with_member(entries, "tool_result"@, result),
        ),
        _ => value,
    }
}

/// What follows a tool's result.
pub open spec fn step_after_tool(
    cfg: JsonView,
    value: JsonView,
    pending: PendingView,
    result: JsonView,
) -> StepView {
    parse_or_emit(cfg, with_result(value, result), pending)
}

/// Goes on from a tool's result.
pub fn after_tool(cfg: &Json, value: Json, pending: Pending, result: Json) -> (r: AgentStep)
    ensures
        r@ == step_after_tool(cfg@, value@, pending@, result@),
{
    let grown = match value.as_object() {
        Some(entries) => {
            let mut copies = copy_members(entries);
            set_member(&mut copies, "tool_result", result);
            object(copies)
        },
        None => value,
    };
    finish_value(cfg, grown, pending)
}

/// Goes on from a validated value.
pub fn after_parse(value: &Json, pending: Pending) -> (r: AgentStep)
    ensures
        r@ == ending(value@, pending@),
{
    emit(value, pending)
}

/// What a downstream node reads of an agent run: how it stopped, which agent
/// it was, the bound it hit, and what it used.
pub open spec fn run_meta(agent_ref: Seq<char>, outcome: OutcomeView) -> JsonView {
    let named = seq![
        ("stop"@, JsonView::String(outcome.stop.name())),
        ("agent_ref"@, JsonView::String(agent_ref)),
    ];
    let bounded = match outcome.stop {
        StopView::LimitStop { limit } => named.push(("limit"@, JsonView::String(limit))),
        _ => named,
    };
    match outcome.usage {
        Some(usage) => JsonView::Object(bounded.push(("usage"@, usage_json(usage)))),
        None => JsonView::Object(bounded),
    }
}

/// The message of a node whose agent paused.
pub open spec fn paused_text(node: Seq<char>, agent_ref: Seq<char>, reason: Seq<char>) -> Seq<
    char,
> {
    "agent node "@ + node + ": agent `"@ + agent_ref + "` paused ("@ + reason
        + "); resuming a paused agent is not supported yet, so the run cannot continue"@
}

/// What follows an agent run: a pause fails the node, a finished run goes
/// through the output parser, and a run stopped by a bound is emitted as it is.
pub open spec fn step_after_run(
    node: Seq<char>,
    cfg: JsonView,
    agent_ref: Seq<char>,
    outcome: OutcomeView,
) -> StepView {
    let pending = PendingView {
        text: outcome.text,
        raw: outcome.raw,
        meta: Some(run_meta(agent_ref, outcome)),
        transcript: outcome.transcript,
    };
    match outcome.stop {
        StopView::Paused { reason, .. } => StepView::Fail {
            error: EngineErrorView::Capability(paused_text(node, agent_ref, reason)),
        },
        StopView::LimitStop { .. } => ending(outcome.json, pending),
        StopView::Finished => parse_or_emit(cfg, outcome.json, pending),
    }
}

fn meta_of(agent_ref: &str, outcome: &AgentRunOutcome) -> (r: Json)
    ensures
        r@ == run_meta(agent_ref@, outcome@),
{
    let mut entries: Vec<(String, Json)> = Vec::new();
    entries.push(member("stop", text_json(outcome.stop.as_str())));
    entries.push(member("agent_ref", text_json(agent_ref)));
    match &outcome.stop {
        StopReason::LimitStop { limit } => {
            entries.push(member("limit", text_json(limit.as_str())));
        },
        _ => {},
    }
    match &outcome.usage {
        Some(usage) => {
            entries.push(member("usage", usage.to_json()));
        },
        None => {},
    }
    assert(members(entries@) =~= run_meta(agent_ref@, outcome@)->Object_0);
    object(entries)
}

/// Goes on from a named agent's run.
pub fn finish_agent_run(node_id: &str, cfg: &Json, agent_ref: &str, outcome: AgentRunOutcome) -> (r:
    AgentStep)
    ensures
        r@ == step_after_run(node_id@, cfg@, agent_ref@, outcome@),
{
    let meta = meta_of(agent_ref, &outcome);
    match &outcome.stop {
        StopReason::Paused { reason, .. } => {
            let mut text = "agent node ".to_owned();
            text.append(node_id);
            text.append(": agent `");
            text.append(agent_ref);
            text.append("` paused (");
            text.append(reason.as_str());
            text.append(
                "); resuming a paused agent is not supported yet, so the run cannot continue",
            );
            AgentStep::Fail { error: EngineError::Capability(text) }
        },
        StopReason::LimitStop { .. } => {
            let pending = Pending {
                text: copy_opt(&outcome.text),
                raw: outcome.raw.clone(),
                meta: Some(meta),
                transcript: outcome.transcript,
            };
            emit(&outcome.json, pending)
        },
        StopReason::Finished => {
            let pending = Pending {
                text: copy_opt(&outcome.text),
                raw: outcome.raw.clone(),
                meta: Some(meta),
                transcript: outcome.transcript,
            };
            finish_value(cfg, outcome.json.clone(), pending)
        },
    }
}

/// One turn of an execution: the item it runs for, and the scope its
/// configuration is resolved in.
#[derive(Debug, PartialEq, Eq)]
pub struct Turn {
    pub item_index: Option<usize>,
    pub scope: Json,
}

#[verifier::ext_equal]
pub struct TurnView {
    pub item_index: Option<usize>,
    pub scope: JsonView,
}

impl View for Turn {
    type V = TurnView;

    open spec fn view(&self) -> TurnView {
        TurnView { item_index: self.item_index, scope: self.scope@ }
    }
}

/// The scope of a turn whose current item has the given payload.
pub open spec fn item_scope(ctx: ContextView, item: JsonView) -> JsonView {
    scope_of(item, payloads(ctx.input), ctx.run, nodes_scope_of(ctx.nodes))
}

/// The turns of an execution: one per input item where the configuration asks
/// for that and there are items, and else a single one.
pub open spec fn turns_of(ctx: ContextView) -> Seq<TurnView> {
    if mode_of(ctx.node.config, ExecutionMode::Once) == ExecutionMode::PerItem && ctx.input.len()
        > 0 {
        Seq::new(
            ctx.input.len(),
            |i: int|
                TurnView {
                    item_index: Some(i as usize),
                    scope: item_scope(ctx, ctx.input[i].json),
                },
        )
    } else {
        seq![TurnView { item_index: None, scope: item_scope(ctx, first_json(ctx.input)) }]
    }
}

/// What a turn came to.
#[derive(Debug, PartialEq, Eq)]
pub struct TurnResult {
    /// The item the turn ran for.
    pub item_index: Option<usize>,
    pub item: Item,
    pub transcript: Vec<TranscriptEntry>,
    pub diagnostics: Vec<NullResolution>,
}

#[verifier::ext_equal]
pub struct TurnResultView {
    pub item_index: Option<usize>,
    pub item: ItemView,
    pub transcript: Seq<TranscriptView>,
    pub diagnostics: Seq<NullResolutionView>,
}

impl View for TurnResult {
    type V = TurnResultView;

    open spec fn view(&self) -> TurnResultView {
        TurnResultView {
            item_index: self.item_index,
            item: self.item@,
            transcript: views(self.transcript@),
            diagnostics: views(self.diagnostics@),
        }
    }
}

impl TurnResultView {
    /// Where the turn stands among those of its execution.
    pub open spec fn place(self) -> nat {
        match self.item_index {
            Some(i) => i as nat,
            None => 0,
        }
    }

    /// The item the turn adds to the output: paired with the input item it ran
    /// for, where it ran for one.
    pub open spec fn emitted(self) -> ItemView {
        match self.item_index {
            Some(i) => ItemView { paired_item: Some(i), ..self.item },
            None => self.item,
        }
    }
}

/// The first turn that ended at a place.
pub open spec fn ended_at(ended: Seq<TurnResultView>, place: nat) -> Option<TurnResultView>
    decreases ended.len(),
{
    if ended.len() == 0 {
        None
    } else if ended[0].place() == place {
        Some(ended[0])
    } else {
        ended_at(ended.drop_first(), place)
    }
}

/// The turns that ended at the first `n` places, in the order of their places.
pub open spec fn in_item_order(ended: Seq<TurnResultView>, n: nat) -> Seq<TurnResultView>
    decreases n,
{
    if n == 0 {
        Seq::empty()
    } else {
        let before = in_item_order(ended, (n - 1) as nat);
        match ended_at(ended, (n - 1) as nat) {
            Some(turn) => before.push(turn),
            None => before,
        }
    }
}

/// What the agents of several turns did, turn by turn.
pub open spec fn all_entries(turns: Seq<TurnResultView>) -> Seq<TranscriptView>
    decreases turns.len(),
{
    if turns.len() == 0 {
        Seq::empty()
    } else {
        all_entries(turns.drop_last()) + turns.last().transcript
    }
}

/// The diagnostics of several turns, turn by turn.
pub open spec fn all_diagnostics(turns: Seq<TurnResultView>) -> Seq<NullResolutionView>
    decreases turns.len(),
{
    if turns.len() == 0 {
        Seq::empty()
    } else {
        all_diagnostics(turns.drop_last()) + turns.last().diagnostics
    }
}

/// The output of an execution of `count` turns, of which `ended` came to
/// something: one item per turn, in item order whichever ended first, with the
/// turns' transcripts and diagnostics in that same order.
pub open spec fn joined(count: nat, ended: Seq<TurnResultView>) -> NodeOutputView {
    let turns = in_item_order(ended, count);
    NodeOutputView {
        diagnostics: all_diagnostics(turns),
        transcript: all_entries(turns),
        ..main_output(Seq::new(turns.len(), |i: int| turns[i].emitted()))
    }
}

/// The `agent` node.
#[derive(Debug, Clone, Copy, PartialEq, Eq, Default)]
pub struct AgentNode;

impl AgentNode {
    /// The turns to run, in order.
    pub fn execute(&self, ctx: &NodeContext<'_>) -> (r: Vec<Turn>)
        ensures
            views(r@) == turns_of(ctx@),
    {
        let mode = execution_mode(&ctx.node.config, ExecutionMode::Once);
        let mut turns: Vec<Turn> = Vec::new();
        if mode == ExecutionMode::PerItem && ctx.input.len() > 0 {
            let mut i: usize = 0;
            while i < ctx.input.len()
                invariant
                    i <= ctx.input@.len(),
                    turns@.len() == i,
                    forall|k: int|
                        0 <= k < i ==> (#[trigger] turns@[k])@ == (TurnView {
                            item_index: Some(k as usize),
                            scope: item_scope(ctx@, ctx.input@[k].json@),
                        }),
                decreases ctx.input@.len() - i,
            {
                let scope = expr_scope_for(ctx, ctx.input[i].json.clone());
                turns.push(Turn { item_index: Some(i), scope });
                i = i + 1;
            }
            assert(views(turns@) =~= turns_of(ctx@));
            turns
        } else {
            turns.push(Turn { item_index: None, scope: expr_scope(ctx) });
            assert(views(turns@) =~= turns_of(ctx@));
            turns
        }
    }

    /// The output of the turns that came to something, given in whatever order
    /// they ended.
    pub fn join(&self, ctx: &NodeContext<'_>, ended: Vec<TurnResult>) -> (r: NodeOutput)
        ensures
            r@ == joined(turns_of(ctx@).len(), views(ended@)),
    {
        let mode = execution_mode(&ctx.node.config, ExecutionMode::Once);
        let count: usize = if mode == ExecutionMode::PerItem && ctx.input.len() > 0 {
            ctx.input.len()
        } else {
            1
        };
        let ghost all = views(ended@);
        let mut slots = sorted_back(count, ended);
        let mut items: Vec<Item> = Vec::new();
        let mut diagnostics: Vec<NullResolution> = Vec::new();
        let mut transcript: Vec<TranscriptEntry> = Vec::new();
        let ghost mut turns = in_item_order(all, 0);
        assert(views(diagnostics@) =~= all_diagnostics(turns));
        assert(views(transcript@) =~= all_entries(turns));
        while slots.len() > 0
            invariant
                slots@.len() <= count,
                forall|k: int|
                    0 <= k < slots@.len() ==> opt_view(#[trigger] slots@[k]) == ended_at(
                        all,
                        (count - 1 - k) as nat,
                    ),
                turns == in_item_order(all, (count - slots@.len()) as nat),
                items@.len() == turns.len(),
                forall|k: int|
                    0 <= k < turns.len() ==> (#[trigger] items@[k])@ == turns[k].emitted(),
                views(diagnostics@) == all_diagnostics(turns),
                views(transcript@) == all_entries(turns),
            decreases slots@.len(),
        {
            let ghost place = (count - slots@.len()) as nat;
            match slots.pop() {
                Some(Some(turn)) => {
                    assert(ended_at(all, place) == Some(turn@));
                    proof {
                        turns = turns.push(turn@);
                        assert(turns.drop_last() =~= in_item_order(all, place));
                    }
                    let ghost had = (items@, views(diagnostics@), views(transcript@));
                    let mut item = turn.item;
                    if turn.item_index.is_some() {
                        item.paired_item = turn.item_index;
                    }
                    items.push(item);
                    let mut nulls = turn.diagnostics;
                    diagnostics.append(&mut nulls);
                    let mut entries = turn.transcript;
                    transcript.append(&mut entries);
                    assert(views(diagnostics@) =~= had.1 + turn@.diagnostics);
                    assert(views(transcript@) =~= had.2 + turn@.transcript);
                },
                _ => {
                    assert(ended_at(all, place) is None);
                },
            }
        }
        let output = NodeOutput::main(items).with_diagnostics(diagnostics).with_transcript(
            transcript,
        );
        assert(output@.items =~= joined(count as nat, all).items);
        output
    }
}

/// The turns by place, the last place first.
fn sorted_back(count: usize, ended: Vec<TurnResult>) -> (r: Vec<Option<TurnResult>>)
    ensures
        r@.len() == count,
        forall|k: int|
            0 <= k < count ==> opt_view(#[trigger] r@[k]) == ended_at(
                views(ended@),
                (count - 1 - k) as nat,
            ),
{
    let ghost all = views(ended@);
    let mut slots: Vec<Option<TurnResult>> = Vec::new();
    while slots.len() < count
        invariant
            slots@.len() <= count,
            forall|k: int| 0 <= k < slots@.len() ==> opt_view(#[trigger] slots@[k]) is None,
        decreases count - slots@.len(),
    {
        slots.push(None);
    }
    let mut rest = ended;
    assert(rest@ =~= ended@.take(ended@.len() as int));
    while rest.len() > 0
        invariant
            all == views(ended@),
            rest@.len() <= ended@.len(),
            rest@ == ended@.take(rest@.len() as int),
            slots@.len() == count,
            forall|k: int|
                0 <= k < count ==> opt_view(#[trigger] slots@[k]) == ended_at(
                    all.skip(rest@.len() as int),
                    (count - 1 - k) as nat,
                ),
        decreases rest@.len(),
    {
        match rest.pop() {
            Some(turn) => {
                let ghost n = rest@.len() as int;
                proof {
                    assert(rest@ =~= ended@.take(n));
                    assert(all.skip(n)[0] == turn@);
                    assert(all.skip(n).drop_first() =~= all.skip(n + 1));
                }
                let place: usize = match turn.item_index {
                    Some(i) => i,
                    None => 0,
                };
                if place < count {
                    let ghost had = slots@;
                    slots.set(count - 1 - place, Some(turn));
                    assert forall|k: int| 0 <= k < count implies opt_view(
                        #[trigger] slots@[k],
                    ) == ended_at(all.skip(n), (count - 1 - k) as nat) by {
                        assert(opt_view(had[k]) == ended_at(
                            all.skip(n + 1),
                            (count - 1 - k) as nat,
                        ));
                    }
                }
            },
            None => {},
        }
    }
    assert(all.skip(0) =~= all);
    slots
}

/// No two turns ended at one place.
pub open spec fn apart(ended: Seq<TurnResultView>) -> bool {
    forall|i: int, j: int|
        0 <= i < j < ended.len() ==> (#[trigger] ended[i]).place() != (
        #[trigger] ended[j]).place()
}

proof fn lemma_ended_at(ended: Seq<TurnResultView>, i: int)
    requires
        apart(ended),
        0 <= i < ended.len(),
    ensures
        ended_at(ended, ended[i].place()) == Some(ended[i]),
    decreases ended.len(),
{
    if i > 0 {
        let rest = ended.drop_first();
        assert(rest[i - 1] == ended[i]);
        assert(ended[0].place() != ended[i].place());
        lemma_ended_at(rest, i - 1);
    }
}

proof fn lemma_ended_among(ended: Seq<TurnResultView>, place: nat)
    ensures
        match ended_at(ended, place) {
            Some(turn) => ended.contains(turn) && turn.place() == place,
            None => forall|i: int|
                0 <= i < ended.len() ==> (#[trigger] ended[i]).place() != place,
        },
    decreases ended.len(),
{
    if ended.len() > 0 && ended[0].place() != place {
        let rest = ended.drop_first();
        lemma_ended_among(rest, place);
        match ended_at(rest, place) {
            Some(turn) => {
                let k = choose|k: int| 0 <= k < rest.len() && rest[k] == turn;
                assert(ended[k + 1] == turn);
            },
            None => {
                assert forall|i: int| 0 <= i < ended.len() implies (
                #[trigger] ended[i]).place() != place by {
                    if i > 0 {
                        assert(rest[i - 1] == ended[i]);
                    }
                }
            },
        }
    } else if ended.len() > 0 {
        assert(ended[0].place() == place);
    }
}

proof fn lemma_same_order(a: Seq<TurnResultView>, b: Seq<TurnResultView>, n: nat)
    requires
        forall|place: nat| place < n ==> #[trigger] ended_at(a, place) == ended_at(b, place),
    ensures
        in_item_order(a, n) == in_item_order(b, n),
    decreases n,
{
    if n > 0 {
        assert(ended_at(a, (n - 1) as nat) == ended_at(b, (n - 1) as nat));
        lemma_same_order(a, b, (n - 1) as nat);
    }
}

/// The order in which turns end is immaterial: the same turns give the same
/// output, items and transcript alike.
pub proof fn turns_join_the_same_however_they_end(
    count: nat,
    a: Seq<TurnResultView>,
    b: Seq<TurnResultView>,
)
    requires
        apart(a),
        apart(b),
        forall|turn: TurnResultView| #[trigger] a.contains(turn) <==> b.contains(turn),
    ensures
        joined(count, a) == joined(count, b),
{
    assert forall|place: nat| place < count implies #[trigger] ended_at(a, place) == ended_at(
        b,
        place,
    ) by {
        lemma_ended_among(a, place);
        lemma_ended_among(b, place);
        match ended_at(a, place) {
            Some(turn) => {
                assert(a.contains(turn));
                let j = choose|j: int| 0 <= j < b.len() && b[j] == turn;
                lemma_ended_at(b, j);
            },
            None => {
                if ended_at(b, place) is Some {
                    let turn = ended_at(b, place)->0;
                    assert(a.contains(turn));
                    let i = choose|i: int| 0 <= i < a.len() && a[i] == turn;
                    assert(a[i].place() == place);
                }
            },
        }
    }
    lemma_same_order(a, b, count);
}

/// Every turn that ends is kept: where all of them do, the output holds one item
/// per turn and each turn's transcript and diagnostics whole, in item order.
pub proof fn every_turn_is_kept(turns: Seq<TurnResultView>)
    requires
        forall|i: int| 0 <= i < turns.len() ==> (#[trigger] turns[i]).place() == i,
    ensures
        joined(turns.len(), turns).items == Seq::new(
            turns.len(),
            |i: int| turns[i].emitted(),
        ),
        joined(turns.len(), turns).transcript == all_entries(turns),
        joined(turns.len(), turns).diagnostics == all_diagnostics(turns),
{
    lemma_in_place(turns, turns.len());
    assert(turns.take(turns.len() as int) =~= turns);
}

proof fn lemma_in_place(turns: Seq<TurnResultView>, n: nat)
    requires
        n <= turns.len(),
        forall|i: int| 0 <= i < turns.len() ==> (#[trigger] turns[i]).place() == i,
    ensures
        in_item_order(turns, n) == turns.take(n as int),
    decreases n,
{
    if n > 0 {
        lemma_in_place(turns, (n - 1) as nat);
        lemma_ended_at(turns, n - 1);
        assert(turns.take(n as int) =~= turns.take(n - 1).push(turns[n - 1]));
    } else {
        assert(turns.take(0) =~= Seq::empty());
    }
}

/// What a turn has of a transcript so far: what it emits, or what is pending.
pub open spec fn told(step: StepView) -> Seq<TranscriptView> {
    match step {
        StepView::Emit { transcript, .. } => transcript,
        StepView::InvokeTool { pending, .. } => pending.transcript,
        StepView::Parse { pending, .. } => pending.transcript,
        _ => Seq::empty(),
    }
}

/// What an agent did is told of the turn it ran in, unless the turn fails; and
/// nothing is told where the model answered.
pub proof fn an_agents_transcript_survives_its_turn(
    node: Seq<char>,
    cfg: JsonView,
    agent_ref: Seq<char>,
    outcome: OutcomeView,
    response: JsonView,
)
    ensures
        !(outcome.stop is Paused) ==> told(step_after_run(node, cfg, agent_ref, outcome))
            == outcome.transcript,
        told(step_after_completion(cfg, response)) == Seq::<TranscriptView>::empty(),
{
}

/// No later step of a turn adds to what is told, or takes from it.
pub proof fn later_steps_keep_the_transcript(cfg: JsonView, value: JsonView, pending: PendingView)
    ensures
        told(parse_or_emit(cfg, value, pending)) == pending.transcript,
        told(ending(value, pending)) == pending.transcript,
{
}

/// Turns that tell nothing join to an output that tells nothing.
pub proof fn silent_turns_tell_nothing(count: nat, ended: Seq<TurnResultView>)
    requires
        forall|i: int| 0 <= i < ended.len() ==> (#[trigger] ended[i]).transcript.len() == 0,
    ensures
        joined(count, ended).transcript.len() == 0,
    decreases count,
{
    if count > 0 {
        let before = (count - 1) as nat;
        silent_turns_tell_nothing(before, ended);
        lemma_ended_among(ended, before);
        match ended_at(ended, before) {
            Some(turn) => {
                let k = choose|k: int| 0 <= k < ended.len() && ended[k] == turn;
                assert(ended[k].transcript.len() == 0);
                let turns = in_item_order(ended, count);
                assert(turns.drop_last() =~= in_item_order(ended, before));
            },
            None => {},
        }
    }
}

/// The configuration offers a tool with the slug.
pub open spec fn offers(cfg: JsonView, slug: Seq<char>) -> bool {
    &&& cfg.at("tools"@) is Array
    &&& exists|i: int| #[trigger] is_offered(cfg.at("tools"@)->Array_0, slug, i)
}

/// Only a tool the configuration offers is ever invoked: whatever the model
/// replies, the slug invoked is the slug of one of the configured tools.
pub proof fn only_offered_tools_are_invoked(cfg: JsonView, response: JsonView)
    ensures
        step_after_completion(cfg, response) is InvokeTool ==> offers(
            cfg,
            step_after_completion(cfg, response)->InvokeTool_slug,
        ),
{
    if step_after_completion(cfg, response) is InvokeTool {
        let tools = cfg.at("tools"@).as_array()->0;
        let slug = response.at("tool_call"@).text_at("slug"@)->0;
        let i = lemma_offered_at(tools, slug);
        assert(is_offered(tools, slug, i));
    }
}

proof fn lemma_offered_at(tools: Seq<JsonView>, slug: Seq<char>) -> (i: int)
    requires
        offered(tools, slug) is Some,
    ensures
        is_offered(tools, slug, i),
        offered(tools, slug) == Some(tools[i]),
    decreases tools.len(),
{
    if tools[0].text_at("slug"@) == Some(slug) {
        0
    } else {
        let rest = tools.drop_first();
        let j = lemma_offered_at(rest, slug);
        assert forall|k: int| 0 <= k < j + 1 implies (#[trigger] tools[k]).text_at("slug"@) != Some(
            slug,
        ) by {
            if k > 0 {
                assert(tools[k] == rest[k - 1]);
            }
        }
        j + 1
    }
}

/// Credentials come from the configuration only: two replies that elect the
/// same tool call it with the same connection, whatever else they say.
pub proof fn credentials_come_from_configuration(cfg: JsonView, a: JsonView, b: JsonView)
    requires
        a.at("tool_call"@).text_at("slug"@) == b.at("tool_call"@).text_at("slug"@),
    ensures
        step_after_completion(cfg, a) is InvokeTool == step_after_completion(cfg, b) is InvokeTool,
        step_after_completion(cfg, a) is InvokeTool ==> step_after_completion(
            cfg,
            a,
        )->InvokeTool_connection == step_after_completion(cfg, b)->InvokeTool_connection,
{
}

/// A named agent's reply never reaches the tool hop, and only a finished run
/// reaches the output parser.
pub proof fn agents_own_their_tools(
    node: Seq<char>,
    cfg: JsonView,
    agent_ref: Seq<char>,
    outcome: OutcomeView,
)
    ensures
        !(step_after_run(node, cfg, agent_ref, outcome) is InvokeTool),
        step_after_run(node, cfg, agent_ref, outcome) is Parse ==> outcome.stop is Finished,
        step_after_run(node, cfg, agent_ref, outcome) is Fail <==> outcome.stop is Paused,
{
}

/// An empty agent name, or a host without a harness, falls back to the model:
/// the turn never asks for an agent run.
pub proof fn without_an_agent_the_model_answers(cfg: JsonView, has_runner: bool)
    requires
        !has_runner || !cfg.has_text("agent_ref"@),
    ensures
        !(first_step(cfg, has_runner) is RunAgent),
        set_at(cfg, "context"@) is None ==> first_step(cfg, has_runner) == (StepView::Complete {
            request: cfg,
            connection: connection_of(cfg),
        }),
{
}

} // verus!
