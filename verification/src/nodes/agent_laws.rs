//! What holds of every turn of an `agent` node.
use vstd::prelude::*;

use crate::caps::agent::{granted_tools, usage_json, AgentUsage, OutcomeView, StopView};
use crate::data::{first_json, payloads};
use crate::json::{
    lemma_member_reads, lemma_no_member, lemma_set_member_keeps_others, lemma_set_member_reads_back,
    JsonView, NumberView,
};
use crate::model::agent::ToolGrantView;
use crate::nodes::{ContextView, EngineErrorView};
use crate::nodes::agent::{
    all_diagnostics, all_entries, elected, ended_at, ending, envelope, every_turn_is_kept,
    first_step, item_scope, joined, offered, run_meta, step_after_completion, step_after_run,
    step_after_tool, step_with_context, turns_of, with_result, PendingView, StepView,
    TurnResultView,
};

verus! {

/// A value is set: it is there, and it is not `null`.
pub open spec fn is_set(value: Option<JsonView>) -> bool {
    value matches Some(inner) && !(inner is Null)
}

/// The configuration has an output parser with a schema.
pub open spec fn has_parser(cfg: JsonView) -> bool {
    &&& is_set(cfg.get("output_parser"@))
    &&& is_set(cfg.at("output_parser"@).get("schema"@))
}

/// The step hands a value to the configured output parser: with the parser's own
/// schema, repair setting and connection, and the node's connection where the
/// parser names none.
pub open spec fn parses(step: StepView, cfg: JsonView, value: JsonView) -> bool {
    let parser = cfg.at("output_parser"@);
    step matches StepView::Parse { value: given, schema, auto_fix, connection, .. } && {
        &&& given == value
        &&& Some(schema) == parser.get("schema"@)
        &&& auto_fix == (parser.get("auto_fix"@) != Some(JsonView::Bool(false)))
        &&& parser.text_at("connection_ref"@) is Some ==> connection == parser.text_at(
            "connection_ref"@,
        )
        &&& parser.text_at("connection_ref"@) is None ==> connection == cfg.text_at(
            "connection_ref"@,
        )
    }
}

/// The step emits one unpaired item whose payload reads: the structure of a
/// value, the prose, and the reply as it was given.
pub open spec fn emits(
    step: StepView,
    value: JsonView,
    text: Option<Seq<char>>,
    raw: JsonView,
) -> bool {
    step matches StepView::Emit { item, .. } && {
        &&& item.paired_item is None
        &&& value is Object || value is Array ==> item.json.get("json"@) == Some(value)
        &&& !(value is Object || value is Array) ==> item.json.get("json"@) == Some(JsonView::Null)
        &&& text matches Some(prose) ==> item.json.get("text"@) == Some(JsonView::String(prose))
        &&& text is None ==> item.json.get("text"@) == Some(JsonView::Null)
        &&& item.json.get("raw"@) == Some(raw)
    }
}

/// What is known of an agent run beside its answer.
pub open spec fn meta_of(step: StepView) -> Option<JsonView> {
    match step {
        StepView::Emit { item, .. } => item.json.get("meta"@),
        StepView::Parse { pending, .. } => pending.meta,
        _ => None,
    }
}

proof fn lemma_envelope_keys()
    ensures
        "json"@ != "text"@,
        "json"@ != "raw"@,
        "json"@ != "meta"@,
        "text"@ != "raw"@,
        "text"@ != "meta"@,
        "raw"@ != "meta"@,
{
    reveal_strlit("json");
    reveal_strlit("text");
    reveal_strlit("raw");
    reveal_strlit("meta");
    assert("json"@.len() == 4 && "text"@.len() == 4 && "raw"@.len() == 3 && "meta"@.len() == 4);
    assert("json"@[0] == 'j');
    assert("text"@[0] == 't');
    assert("meta"@[0] == 'm');
}

proof fn lemma_meta_keys()
    ensures
        "stop"@ != "agent_ref"@,
        "stop"@ != "limit"@,
        "stop"@ != "usage"@,
        "agent_ref"@ != "limit"@,
        "agent_ref"@ != "usage"@,
        "limit"@ != "usage"@,
{
    reveal_strlit("stop");
    reveal_strlit("agent_ref");
    reveal_strlit("limit");
    reveal_strlit("usage");
    assert("stop"@.len() == 4 && "agent_ref"@.len() == 9 && "limit"@.len() == 5 && "usage"@.len() == 5);
    assert("limit"@[0] == 'l');
    assert("usage"@[0] == 'u');
}

proof fn lemma_usage_keys()
    ensures
        "input_tokens"@ != "output_tokens"@,
        "input_tokens"@ != "steps"@,
        "input_tokens"@ != "tool_calls"@,
        "output_tokens"@ != "steps"@,
        "output_tokens"@ != "tool_calls"@,
        "steps"@ != "tool_calls"@,
{
    reveal_strlit("input_tokens");
    reveal_strlit("output_tokens");
    reveal_strlit("steps");
    reveal_strlit("tool_calls");
    assert("input_tokens"@.len() == 12 && "output_tokens"@.len() == 13 && "steps"@.len() == 5 && "tool_calls"@.len() == 10);
}

proof fn lemma_envelope(value: JsonView, pending: PendingView)
    ensures
        emits(ending(value, pending), value, pending.text, pending.raw),
        meta_of(ending(value, pending)) == pending.meta,
{
    lemma_envelope_keys();
    let entries = envelope(value, pending)->Object_0;
    lemma_member_reads(entries, 0);
    lemma_member_reads(entries, 1);
    lemma_member_reads(entries, 2);
    if pending.meta is Some {
        lemma_member_reads(entries, 3);
    } else {
        lemma_no_member(entries, "meta"@);
    }
}

/// A finished agent's answer is validated against the author's schema before it
/// is emitted, wherever there is one, and only then.
pub proof fn finished_answers_are_parsed(
    node: Seq<char>,
    cfg: JsonView,
    agent_ref: Seq<char>,
    outcome: OutcomeView,
)
    requires
        outcome.stop is Finished,
    ensures
        has_parser(cfg) ==> parses(
            step_after_run(node, cfg, agent_ref, outcome),
            cfg,
            outcome.json,
        ),
        !has_parser(cfg) ==> emits(
            step_after_run(node, cfg, agent_ref, outcome),
            outcome.json,
            outcome.text,
            outcome.raw,
        ),
{
    if !has_parser(cfg) {
        let step = step_after_run(node, cfg, agent_ref, outcome);
        let pending = PendingView {
            text: outcome.text,
            raw: outcome.raw,
            meta: Some(run_meta(agent_ref, outcome)),
            transcript: outcome.transcript,
        };
        lemma_envelope(outcome.json, pending);
        assert(step == ending(outcome.json, pending));
    }
}

/// A run that a bound stopped is emitted as far as it got, parser or none.
pub proof fn partial_answers_are_emitted(
    node: Seq<char>,
    cfg: JsonView,
    agent_ref: Seq<char>,
    outcome: OutcomeView,
)
    requires
        outcome.stop is LimitStop,
    ensures
        emits(
            step_after_run(node, cfg, agent_ref, outcome),
            outcome.json,
            outcome.text,
            outcome.raw,
        ),
{
    let pending = PendingView {
        text: outcome.text,
        raw: outcome.raw,
        meta: Some(run_meta(agent_ref, outcome)),
        transcript: outcome.transcript,
    };
    lemma_envelope(outcome.json, pending);
    assert(step_after_run(node, cfg, agent_ref, outcome) == ending(outcome.json, pending));
}

/// A pause fails the node, with a message that names the node, the agent and why
/// it paused.
pub proof fn pauses_fail_the_node(
    node: Seq<char>,
    cfg: JsonView,
    agent_ref: Seq<char>,
    outcome: OutcomeView,
)
    requires
        outcome.stop is Paused,
    ensures
        step_after_run(node, cfg, agent_ref, outcome) matches StepView::Fail { error } && (
        error matches EngineErrorView::Capability(text) && exists|
            a: Seq<char>,
            b: Seq<char>,
            c: Seq<char>,
            d: Seq<char>,
        |
            text == #[trigger] (a + node + b + agent_ref + c + outcome.stop->Paused_reason + d)),
{
    let text = step_after_run(node, cfg, agent_ref, outcome)->error->Capability_0;
    let a = "agent node "@;
    let b = ": agent `"@;
    let c = "` paused ("@;
    let d = "); resuming a paused agent is not supported yet, so the run cannot continue"@;
    assert(text == a + node + b + agent_ref + c + outcome.stop->Paused_reason + d);
}

/// Beside an agent's answer stands how it stopped, which agent it was, the bound
/// it hit where it hit one, and what it used where that is known.
pub proof fn agent_runs_say_how_they_stopped(
    node: Seq<char>,
    cfg: JsonView,
    agent_ref: Seq<char>,
    outcome: OutcomeView,
)
    requires
        !(outcome.stop is Paused),
    ensures
        meta_of(step_after_run(node, cfg, agent_ref, outcome)) matches Some(meta) && {
            &&& outcome.stop is Finished ==> meta.text_at("stop"@) == Some("finished"@)
            &&& outcome.stop is LimitStop ==> meta.text_at("stop"@) == Some("limit_stop"@)
            &&& meta.text_at("agent_ref"@) == Some(agent_ref)
            &&& outcome.stop matches StopView::LimitStop { limit } ==> meta.text_at("limit"@)
                == Some(limit)
            &&& outcome.stop is Finished ==> meta.get("limit"@) is None
            &&& outcome.usage matches Some(usage) ==> meta.get("usage"@) == Some(
                usage_json(usage),
            )
            &&& outcome.usage is None ==> meta.get("usage"@) is None
        },
{
    lemma_meta_keys();
    let meta = run_meta(agent_ref, outcome);
    let entries = meta->Object_0;
    let pending = PendingView {
        text: outcome.text,
        raw: outcome.raw,
        meta: Some(meta),
        transcript: outcome.transcript,
    };
    lemma_envelope(outcome.json, pending);
    lemma_member_reads(entries, 0);
    lemma_member_reads(entries, 1);
    if outcome.stop is LimitStop {
        lemma_member_reads(entries, 2);
        if outcome.usage is Some {
            lemma_member_reads(entries, 3);
        } else {
            lemma_no_member(entries, "usage"@);
        }
    } else {
        lemma_no_member(entries, "limit"@);
        if outcome.usage is Some {
            lemma_member_reads(entries, 2);
        } else {
            lemma_no_member(entries, "usage"@);
        }
    }
    assert(meta_of(step_after_run(node, cfg, agent_ref, outcome)) == Some(meta));
}

/// What an agent used is counted under the name of what was used, and a count
/// that is not known is left out.
pub proof fn usage_counts_read_back(usage: AgentUsage)
    ensures
        usage_json(usage).get("input_tokens"@) == (match usage.input_tokens {
            Some(n) => Some(JsonView::Number(NumberView::PosInt(n))),
            None => None,
        }),
        usage_json(usage).get("output_tokens"@) == (match usage.output_tokens {
            Some(n) => Some(JsonView::Number(NumberView::PosInt(n))),
            None => None,
        }),
        usage_json(usage).get("steps"@) == (match usage.steps {
            Some(n) => Some(JsonView::Number(NumberView::PosInt(n as u64))),
            None => None,
        }),
        usage_json(usage).get("tool_calls"@) == (match usage.tool_calls {
            Some(n) => Some(JsonView::Number(NumberView::PosInt(n as u64))),
            None => None,
        }),
{
    lemma_usage_keys();
    let entries = usage_json(usage)->Object_0;
    let a: int = if usage.input_tokens is Some { 1 } else { 0 };
    let b: int = a + if usage.output_tokens is Some { 1int } else { 0 };
    let c: int = b + if usage.steps is Some { 1int } else { 0 };
    if usage.input_tokens is Some {
        lemma_member_reads(entries, 0);
    } else {
        lemma_no_member(entries, "input_tokens"@);
    }
    if usage.output_tokens is Some {
        lemma_member_reads(entries, a);
    } else {
        lemma_no_member(entries, "output_tokens"@);
    }
    if usage.steps is Some {
        lemma_member_reads(entries, b);
    } else {
        lemma_no_member(entries, "steps"@);
    }
    if usage.tool_calls is Some {
        lemma_member_reads(entries, c);
    } else {
        lemma_no_member(entries, "tool_calls"@);
    }
}

/// The prose a reply is read as holding: the reply where it is a text, and else
/// its `text`.
pub open spec fn says(response: JsonView, text: Option<Seq<char>>) -> bool {
    &&& response matches JsonView::String(whole) ==> text == Some(whole)
    &&& !(response is String) ==> text == response.text_at("text"@)
}

/// The reply asks for the tool at position `i` of the configuration, which is
/// the first that is offered under that name.
pub open spec fn asks_for(cfg: JsonView, response: JsonView, i: int) -> bool {
    &&& cfg.get("tools"@) matches Some(JsonView::Array(tools))
    &&& 0 <= i < tools.len()
    &&& response.at("tool_call"@).text_at("slug"@) is Some
    &&& tools[i].text_at("slug"@) == response.at("tool_call"@).text_at("slug"@)
    &&& forall|k: int|
        0 <= k < i ==> (#[trigger] tools[k]).text_at("slug"@) != tools[i].text_at("slug"@)
}

proof fn lemma_offered_first(tools: Seq<JsonView>, slug: Seq<char>, i: int)
    requires
        0 <= i < tools.len(),
        tools[i].text_at("slug"@) == Some(slug),
        forall|k: int| 0 <= k < i ==> (#[trigger] tools[k]).text_at("slug"@) != Some(slug),
    ensures
        offered(tools, slug) == Some(tools[i]),
    decreases i,
{
    if i > 0 {
        assert(tools[0].text_at("slug"@) != Some(slug));
        let rest = tools.drop_first();
        assert forall|k: int| 0 <= k < i - 1 implies (#[trigger] rest[k]).text_at("slug"@) != Some(
            slug,
        ) by {
            assert(rest[k] == tools[k + 1]);
        }
        lemma_offered_first(rest, slug, i - 1);
    }
}

/// A tool that the model asks for and the configuration offers is called: with
/// the arguments the model gave, on the connection that the tool names, or else
/// the node. The reply is kept.
pub proof fn offered_tools_are_called(cfg: JsonView, response: JsonView, i: int)
    requires
        asks_for(cfg, response, i),
    ensures
        step_after_completion(cfg, response) matches StepView::InvokeTool {
            slug,
            args,
            connection,
            value,
            pending,
        } && {
            let tool = cfg.at("tools"@)->Array_0[i];
            &&& Some(slug) == response.at("tool_call"@).text_at("slug"@)
            &&& args == response.at("tool_call"@).at("args"@)
            &&& tool.text_at("connection_ref"@) is Some ==> connection == tool.text_at(
                "connection_ref"@,
            )
            &&& tool.text_at("connection_ref"@) is None ==> connection == cfg.text_at(
                "connection_ref"@,
            )
            &&& value == response
            &&& pending.raw == response
            &&& says(response, pending.text)
            &&& pending.meta is None
        },
{
    let slug = response.at("tool_call"@).text_at("slug"@)->0;
    lemma_offered_first(cfg.at("tools"@)->Array_0, slug, i);
}

/// A reply that asks for no tool on offer ends the turn: it is parsed where there
/// is a parser, and else emitted.
pub proof fn plain_replies_end_the_turn(cfg: JsonView, response: JsonView)
    requires
        elected(cfg, response) is None,
    ensures
        has_parser(cfg) ==> parses(step_after_completion(cfg, response), cfg, response),
        !has_parser(cfg) ==> exists|text: Option<Seq<char>>|
            says(response, text) && #[trigger] emits(
                step_after_completion(cfg, response),
                response,
                text,
                response,
            ),
        !has_parser(cfg) ==> meta_of(step_after_completion(cfg, response)) is None,
{
    if !has_parser(cfg) {
        let text = if response is String {
            Some(response->String_0)
        } else {
            response.text_at("text"@)
        };
        let pending = PendingView {
            text,
            raw: response,
            meta: None,
            transcript: Seq::empty(),
        };
        lemma_envelope(response, pending);
        assert(step_after_completion(cfg, response) == ending(response, pending));
        assert(emits(step_after_completion(cfg, response), response, text, response));
    }
}

/// Without a tool call, or where no tool of that name is offered, the reply asks
/// for no tool.
pub proof fn only_offers_are_elected(cfg: JsonView, response: JsonView)
    ensures
        response.at("tool_call"@).text_at("slug"@) is None ==> elected(cfg, response) is None,
        !(cfg.at("tools"@) is Array) ==> elected(cfg, response) is None,
        (cfg.at("tools"@) matches JsonView::Array(tools) && forall|k: int|
            0 <= k < tools.len() ==> (#[trigger] tools[k]).text_at("slug"@) != response.at(
                "tool_call"@,
            ).text_at("slug"@)) ==> elected(cfg, response) is None,
{
    if elected(cfg, response) is Some && cfg.at("tools"@) is Array {
        let tools = cfg.at("tools"@)->Array_0;
        let slug = response.at("tool_call"@).text_at("slug"@)->0;
        lemma_offered_some(tools, slug);
    }
}

proof fn lemma_offered_some(tools: Seq<JsonView>, slug: Seq<char>)
    requires
        offered(tools, slug) is Some,
    ensures
        exists|k: int| 0 <= k < tools.len() && (#[trigger] tools[k]).text_at("slug"@) == Some(slug),
    decreases tools.len(),
{
    if tools[0].text_at("slug"@) != Some(slug) {
        lemma_offered_some(tools.drop_first(), slug);
        let rest = tools.drop_first();
        let k = choose|k: int|
            0 <= k < rest.len() && (#[trigger] rest[k]).text_at("slug"@) == Some(slug);
        assert(tools[k + 1].text_at("slug"@) == Some(slug));
    }
}

/// What a tool returned goes on under `tool_result`, and the rest of the reply
/// with it, through the parser where there is one.
pub proof fn tool_results_go_on(
    cfg: JsonView,
    value: JsonView,
    pending: PendingView,
    result: JsonView,
    other: Seq<char>,
)
    requires
        value is Object,
        other != "tool_result"@,
    ensures
        ({
            let step = step_after_tool(cfg, value, pending, result);
            let grown = match step {
                StepView::Parse { value, .. } => value,
                StepView::Emit { item, .. } => item.json.at("json"@),
                _ => JsonView::Null,
            };
            &&& grown.get("tool_result"@) == Some(result)
            &&& grown.get(other) == value.get(other)
            &&& has_parser(cfg) ==> parses(step, cfg, grown)
            &&& !has_parser(cfg) ==> emits(step, grown, pending.text, pending.raw)
        }),
{
    let entries = value->Object_0;
    lemma_set_member_reads_back(entries, "tool_result"@, result);
    lemma_set_member_keeps_others(entries, "tool_result"@, result, other);
    lemma_envelope(with_result(value, result), pending);
}

/// A validated value is what is emitted, with the prose and the reply from
/// before it was validated.
pub proof fn parsed_values_are_emitted(value: JsonView, pending: PendingView)
    ensures
        emits(ending(value, pending), value, pending.text, pending.raw),
        meta_of(ending(value, pending)) == pending.meta,
{
    lemma_envelope(value, pending);
}

/// A turn begins with the named agent where a harness can run it, with the
/// declared context where the model is asked instead, and with the configuration
/// itself as the request where there is none.
pub proof fn turns_begin_as_configured(cfg: JsonView, has_runner: bool)
    ensures
        has_runner && cfg.has_text("agent_ref"@) ==> (first_step(
            cfg,
            has_runner,
        ) matches StepView::RunAgent { agent_ref } && Some(agent_ref) == cfg.text_at(
            "agent_ref"@,
        )),
        !(has_runner && cfg.has_text("agent_ref"@)) && is_set(cfg.get("context"@)) ==> (first_step(
            cfg,
            has_runner,
        ) matches StepView::ResolveContext { sources } && Some(sources) == cfg.get("context"@)),
        !(has_runner && cfg.has_text("agent_ref"@)) && !is_set(cfg.get("context"@)) ==> (first_step(
            cfg,
            has_runner,
        ) matches StepView::Complete { request, connection } && request == cfg && connection
            == cfg.text_at("connection_ref"@)),
{
}

/// The resolved context takes the place of the declared one, and the rest of the
/// request is the configuration.
pub proof fn resolved_context_reaches_the_model(
    cfg: JsonView,
    blocks: JsonView,
    other: Seq<char>,
)
    requires
        cfg is Object,
        other != "context"@,
    ensures
        step_with_context(cfg, blocks) matches StepView::Complete { request, connection } && {
            &&& request.get("context"@) == Some(blocks)
            &&& request.get(other) == cfg.get(other)
            &&& connection == cfg.text_at("connection_ref"@)
        },
{
    let entries = cfg->Object_0;
    lemma_set_member_reads_back(entries, "context"@, blocks);
    lemma_set_member_keeps_others(entries, "context"@, blocks, other);
}

proof fn lemma_scope_keys()
    ensures
        "item"@ != "items"@,
        "item"@ != "run"@,
        "item"@ != "nodes"@,
        "item"@ != "inputs"@,
        "items"@ != "run"@,
        "items"@ != "nodes"@,
        "items"@ != "inputs"@,
        "run"@ != "nodes"@,
        "run"@ != "inputs"@,
        "nodes"@ != "inputs"@,
{
    reveal_strlit("item");
    reveal_strlit("items");
    reveal_strlit("run");
    reveal_strlit("nodes");
    reveal_strlit("inputs");
    assert("item"@.len() == 4 && "items"@.len() == 5 && "run"@.len() == 3 && "nodes"@.len() == 5 && "inputs"@.len() == 6);
    assert("items"@[0] == 'i');
    assert("nodes"@[0] == 'n');
}

proof fn lemma_scope(ctx: ContextView, item: JsonView)
    ensures
        ({
            let scope = item_scope(ctx, item);
            &&& scope.get("item"@) == Some(item)
            &&& scope.get("items"@) == Some(
                JsonView::Array(Seq::new(ctx.input.len(), |k: int| ctx.input[k].json)),
            )
            &&& scope.get("run"@) == Some(ctx.run)
            &&& scope.get("inputs"@) == Some(ctx.run.at("inputs"@))
        }),
{
    lemma_scope_keys();
    let entries = item_scope(ctx, item)->Object_0;
    lemma_member_reads(entries, 0);
    lemma_member_reads(entries, 1);
    lemma_member_reads(entries, 2);
    lemma_member_reads(entries, 4);
    assert(payloads(ctx.input) =~= Seq::new(
        ctx.input.len(),
        |k: int| ctx.input[k].json,
    ));
}

/// A node that runs once per item has a turn for each, which sees that item as
/// the current one and all of them beside it.
pub proof fn each_item_has_its_turn(ctx: ContextView, i: int)
    requires
        ctx.node.config.text_at("execution"@) == Some("per_item"@),
        0 <= i < ctx.input.len() <= usize::MAX,
    ensures
        turns_of(ctx).len() == ctx.input.len(),
        turns_of(ctx)[i].item_index matches Some(index) && index == i,
        turns_of(ctx)[i].scope.get("item"@) == Some(ctx.input[i].json),
        turns_of(ctx)[i].scope.get("items"@) == Some(
            JsonView::Array(Seq::new(ctx.input.len(), |k: int| ctx.input[k].json)),
        ),
        turns_of(ctx)[i].scope.get("run"@) == Some(ctx.run),
        turns_of(ctx)[i].scope.get("inputs"@) == Some(ctx.run.at("inputs"@)),
{
    lemma_scope(ctx, ctx.input[i].json);
}

/// Any other node, and one without input, has a single turn that runs for no
/// item, and sees the first as the current one.
pub proof fn other_nodes_have_one_turn(ctx: ContextView)
    requires
        ctx.node.config.text_at("execution"@) != Some("per_item"@) || ctx.input.len() == 0,
    ensures
        turns_of(ctx).len() == 1,
        turns_of(ctx)[0].item_index is None,
        ctx.input.len() > 0 ==> turns_of(ctx)[0].scope.get("item"@) == Some(ctx.input[0].json),
        ctx.input.len() == 0 ==> turns_of(ctx)[0].scope.get("item"@) == Some(JsonView::Null),
        turns_of(ctx)[0].scope.get("items"@) == Some(
            JsonView::Array(Seq::new(ctx.input.len(), |k: int| ctx.input[k].json)),
        ),
        turns_of(ctx)[0].scope.get("run"@) == Some(ctx.run),
{
    reveal_strlit("once");
    reveal_strlit("per_item");
    assert("once"@.len() == 4 && "per_item"@.len() == 8);
    lemma_scope(ctx, first_json(ctx.input));
}

/// The output of turns that all ended has an item per turn with the payload that
/// the turn emitted, paired with the input item that the turn ran for; it leaves
/// by the default port and asks for nothing else.
pub proof fn outputs_hold_what_turns_emitted(turns: Seq<TurnResultView>, i: int)
    requires
        forall|k: int| 0 <= k < turns.len() ==> (#[trigger] turns[k]).place() == k,
        0 <= i < turns.len(),
    ensures
        joined(turns.len(), turns).items.len() == turns.len(),
        joined(turns.len(), turns).items[i].json == turns[i].item.json,
        turns[i].item_index is Some ==> joined(turns.len(), turns).items[i].paired_item
            == turns[i].item_index,
        joined(turns.len(), turns).port is None,
        joined(turns.len(), turns).control is None,
        joined(turns.len(), turns).meta is None,
{
    every_turn_is_kept(turns);
}

/// The transcripts and diagnostics of several turns are those of the first ones,
/// then those of the rest; and of a single turn they are its own.
pub proof fn transcripts_follow_the_turns(
    first: Seq<TurnResultView>,
    rest: Seq<TurnResultView>,
    turn: TurnResultView,
)
    ensures
        all_entries(first + rest) == all_entries(first) + all_entries(rest),
        all_diagnostics(first + rest) == all_diagnostics(first) + all_diagnostics(rest),
        all_entries(seq![turn]) == turn.transcript,
        all_diagnostics(seq![turn]) == turn.diagnostics,
    decreases rest.len(),
{
    let one = seq![turn];
    assert(one.drop_last() =~= Seq::empty());
    reveal_with_fuel(all_entries, 2);
    reveal_with_fuel(all_diagnostics, 2);
    assert(all_entries(one) =~= turn.transcript);
    assert(all_diagnostics(one) =~= turn.diagnostics);
    if rest.len() == 0 {
        assert(first + rest =~= first);
        assert(all_entries(first) + all_entries(rest) =~= all_entries(first));
        assert(all_diagnostics(first) + all_diagnostics(rest) =~= all_diagnostics(first));
    } else {
        transcripts_follow_the_turns(first, rest.drop_last(), turn);
        assert((first + rest).drop_last() =~= first + rest.drop_last());
        assert(all_entries(first + rest) =~= all_entries(first) + all_entries(rest));
        assert(all_diagnostics(first + rest) =~= all_diagnostics(first) + all_diagnostics(rest));
    }
}

/// What is kept of a reply while its value is validated: the prose and the reply
/// itself, as they stood before.
pub open spec fn keeps(step: StepView, text: Option<Seq<char>>, raw: JsonView) -> bool {
    step matches StepView::Parse { pending, .. } ==> pending.text == text && pending.raw == raw
}

/// Validating a value loses neither the prose nor the reply it came with.
pub proof fn validation_keeps_the_reply(
    node: Seq<char>,
    cfg: JsonView,
    agent_ref: Seq<char>,
    outcome: OutcomeView,
    value: JsonView,
    pending: PendingView,
    result: JsonView,
)
    ensures
        keeps(step_after_run(node, cfg, agent_ref, outcome), outcome.text, outcome.raw),
        keeps(step_after_tool(cfg, value, pending, result), pending.text, pending.raw),
        meta_of(step_after_tool(cfg, value, pending, result)) == pending.meta,
        value matches JsonView::String(prose) ==> keeps(
            step_after_completion(cfg, value),
            Some(prose),
            value,
        ),
        !(value is String) ==> keeps(
            step_after_completion(cfg, value),
            value.text_at("text"@),
            value,
        ),
{
    lemma_envelope(with_result(value, result), pending);
}

/// What is no object has nowhere to put a context or a result, and goes on as it
/// is.
pub proof fn what_is_no_object_goes_on_as_it_is(
    cfg: JsonView,
    plain: JsonView,
    pending: PendingView,
    more: JsonView,
)
    requires
        !(plain is Object),
    ensures
        step_with_context(plain, more) matches StepView::Complete { request, .. } && request
            == plain,
        has_parser(cfg) ==> parses(step_after_tool(cfg, plain, pending, more), cfg, plain),
        !has_parser(cfg) ==> emits(
            step_after_tool(cfg, plain, pending, more),
            plain,
            pending.text,
            pending.raw,
        ),
{
    lemma_envelope(plain, pending);
}

/// A turn that came to nothing leaves no gap and takes nobody else's place: the
/// output is that of the turns before it.
pub proof fn unfinished_turns_are_left_out(count: nat, ended: Seq<TurnResultView>)
    requires
        forall|k: int| 0 <= k < ended.len() ==> (#[trigger] ended[k]).place() != count,
    ensures
        joined(count + 1, ended) == joined(count, ended),
{
    lemma_none_ended(ended, count);
}

proof fn lemma_none_ended(ended: Seq<TurnResultView>, place: nat)
    requires
        forall|k: int| 0 <= k < ended.len() ==> (#[trigger] ended[k]).place() != place,
    ensures
        ended_at(ended, place) is None,
    decreases ended.len(),
{
    if ended.len() > 0 {
        let rest = ended.drop_first();
        assert forall|k: int| 0 <= k < rest.len() implies (#[trigger] rest[k]).place() != place by {
            assert(rest[k] == ended[k + 1]);
        }
        assert(ended[0].place() != place);
        lemma_none_ended(rest, place);
    }
}

/// Each grant permits one tool, in the order of the grants: under the slug as it is
/// written, on the grant's own connection, or else on the fallback. Nothing else is
/// said of the tool.
pub proof fn each_grant_permits_its_tool(
    grants: Seq<ToolGrantView>,
    fallback: Option<Seq<char>>,
    i: int,
)
    requires
        0 <= i < grants.len(),
    ensures
        granted_tools(grants, fallback).len() == grants.len(),
        ({
            let tool = granted_tools(grants, fallback)[i];
            &&& tool.slug == grants[i].slug
            &&& grants[i].connection_ref is Some ==> tool.connection_ref
                == grants[i].connection_ref
            &&& grants[i].connection_ref is None ==> tool.connection_ref == fallback
            &&& tool.name is None
            &&& tool.description is None
            &&& tool.input_schema is None
        }),
{
}

} // verus!
