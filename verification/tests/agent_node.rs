//! The `agent` node, one step after the other.
use tinyflows::caps::agent::{
    prose, resolve_tools, structure, AgentInput, AgentModelSelection, AgentRunIdentity,
    AgentRunOutcome, AgentRunRequest, AgentUsage, ContextBlock, StopReason, ToolDescriptor,
};
use tinyflows::data::Item;
use tinyflows::json::Json;
use tinyflows::json_text::parse;
use tinyflows::model::agent::{
    AgentDefinition, AgentLimits, ContextSource, ContextSourceKind, ToolGrant,
};
use tinyflows::model::graph::{Node, NodeKind};
use tinyflows::nodes::agent::{
    after_completion, after_parse, after_tool, agent_ref_of, finish_agent_run, run_turn,
    with_context, AgentNode, AgentStep, TurnResult,
};
use tinyflows::nodes::{
    concurrency, on_item_error, Concurrency, EngineError, NodeContext, NodeOutput, NullResolution,
    OnItemError,
};
use tinyflows::store::transcript::TranscriptEntry;
use tinyflows::testkit::double::Double;
use tinyflows::testkit::mocks::{CallOutcome, MockCaps, OpenCall, Respond};

fn json(text: &str) -> Json {
    parse(text).expect("valid JSON")
}

fn agent_node(config: &str) -> Node {
    Node {
        id: "n".into(),
        kind: NodeKind::Agent,
        type_version: 1,
        name: "n".into(),
        config: json(config),
        position: None,
    }
}

fn returned(mocks: &mut MockCaps, call: OpenCall) -> Json {
    match mocks.settle(call) {
        CallOutcome::Returned(value) => value,
        CallOutcome::Failed(message) => panic!("the call failed: {message}"),
    }
}

/// Runs one turn on a resolved configuration with stand-ins for the host.
fn turn(config: &str, has_runner: bool, mut mocks: MockCaps) -> (Json, MockCaps) {
    let cfg = json(config);
    let double = Double::new(Some("n"));
    let mut step = run_turn(&cfg, has_runner);
    loop {
        step = match step {
            AgentStep::RunAgent { agent_ref } => {
                let conn = cfg.text_copy("connection_ref");
                let call =
                    double.run_agent(&mut mocks, &agent_ref, cfg.clone(), conn.as_deref());
                let value = returned(&mut mocks, call);
                finish_agent_run("n", &cfg, &agent_ref, AgentRunOutcome::finished(value))
            },
            AgentStep::ResolveContext { sources } => with_context(&cfg, sources),
            AgentStep::Complete { request, connection } => {
                let call = double.complete(&mut mocks, request, connection.as_deref());
                after_completion(&cfg, returned(&mut mocks, call))
            },
            AgentStep::InvokeTool { slug, args, connection, value, pending } => {
                let call = double.invoke(&mut mocks, &slug, args, connection.as_deref());
                after_tool(&cfg, value, pending, returned(&mut mocks, call))
            },
            AgentStep::Parse { value, pending, .. } => after_parse(&value, pending),
            AgentStep::Emit { item, .. } => return (item.json, mocks),
            AgentStep::Fail { error } => panic!("the node failed: {error:?}"),
        };
    }
}

fn calling(reply: &str) -> MockCaps {
    MockCaps::new().on_llm(Respond::value(json(reply)))
}

#[test]
fn agent_completes_config_request() {
    let (value, _) = turn(r#"{ "prompt": "hi" }"#, false, MockCaps::new());
    assert_eq!(value.at("json").at("completion").text_at("prompt"), Some("hi"));
}

#[test]
fn defaults_to_once_but_per_item_maps_over_input() {
    let input =
        vec![Item::new(json(r#"{ "name": "A" }"#)), Item::new(json(r#"{ "name": "B" }"#))];
    let run = Json::Null;
    let nodes = Json::Null;
    let once = agent_node(r#"{ "prompt": "=item.name" }"#);
    let turns = AgentNode.execute(&NodeContext {
        node: &once,
        input: &input,
        run: &run,
        nodes: &nodes,
        lane: None,
        resume: None,
        step: 0,
    });
    assert_eq!(turns.len(), 1, "once mode runs a single turn");
    assert_eq!(turns[0].item_index, None);
    assert_eq!(turns[0].scope.at("item").text_at("name"), Some("A"));

    let per_item = agent_node(r#"{ "prompt": "=item.name", "execution": "per_item" }"#);
    let turns = AgentNode.execute(&NodeContext {
        node: &per_item,
        input: &input,
        run: &run,
        nodes: &nodes,
        lane: None,
        resume: None,
        step: 0,
    });
    assert_eq!(turns.len(), 2, "per_item runs one turn per input");
    assert_eq!(turns[0].scope.at("item").text_at("name"), Some("A"));
    assert_eq!(turns[1].scope.at("item").text_at("name"), Some("B"));
    assert_eq!(turns[1].item_index, Some(1));
}

#[test]
fn threads_connection_ref_and_echoes_config() {
    let (value, _) =
        turn(r#"{ "prompt": "hi", "connection_ref": "acct_9" }"#, false, MockCaps::new());
    assert_eq!(value.at("json").at("completion").text_at("prompt"), Some("hi"));
    assert_eq!(value.at("json").text_at("connection"), Some("acct_9"));
    // The raw completion is preserved verbatim under `raw`.
    assert_eq!(value.at("raw").at("completion").text_at("prompt"), Some("hi"));
}

#[test]
fn missing_connection_ref_is_null() {
    let (value, _) = turn(r#"{ "prompt": "hi" }"#, false, MockCaps::new());
    assert_eq!(value.at("json").at("connection"), Json::Null);
}

#[test]
fn emits_exactly_one_item_regardless_of_input_count() {
    let node = agent_node(r#"{ "prompt": "hi" }"#);
    let input = vec![
        Item::new(json(r#"{ "a": 1 }"#)),
        Item::new(json(r#"{ "b": 2 }"#)),
        Item::new(json(r#"{ "c": 3 }"#)),
    ];
    let turns = AgentNode.execute(&NodeContext {
        node: &node,
        input: &input,
        run: &Json::Null,
        nodes: &Json::Null,
        lane: None,
        resume: None,
        step: 0,
    });
    assert_eq!(turns.len(), 1);
}

#[test]
fn tool_sub_port_invokes_offered_tool_and_attaches_result() {
    let (value, _) = turn(
        r#"{ "prompt": "do it", "tools": [{ "slug": "slack.post" }] }"#,
        false,
        calling(r#"{ "tool_call": { "slug": "slack.post", "args": { "text": "hi" } } }"#),
    );
    let result = value.at("json").at("tool_result");
    assert_eq!(result.text_at("tool"), Some("slack.post"));
    assert_eq!(result.at("args").text_at("text"), Some("hi"));
}

#[test]
fn tool_sub_port_ignores_unoffered_tool() {
    let (value, mocks) = turn(
        r#"{ "prompt": "do it", "tools": [{ "slug": "slack.post" }] }"#,
        false,
        calling(r#"{ "tool_call": { "slug": "danger.delete_all" } }"#),
    );
    assert!(value.at("json").get("tool_result").is_none());
    assert_eq!(mocks.log().count("tools", None), 0);
}

#[test]
fn tool_sub_port_ignores_model_supplied_connection_ref() {
    // A model-supplied connection must not be trusted: the credential comes
    // from the offered tool, and else from the node.
    let (value, _) = turn(
        r#"{
            "prompt": "do it",
            "connection_ref": "node_acct",
            "tools": [{ "slug": "slack.post", "connection_ref": "trusted_acct" }]
        }"#,
        false,
        calling(
            r#"{ "tool_call": {
                "slug": "slack.post",
                "args": { "text": "hi" },
                "connection_ref": "attacker_acct"
            } }"#,
        ),
    );
    assert_eq!(value.at("json").at("tool_result").text_at("connection"), Some("trusted_acct"));
}

#[test]
fn tool_sub_port_falls_back_to_node_connection_ref() {
    let (value, _) = turn(
        r#"{
            "prompt": "do it",
            "connection_ref": "node_acct",
            "tools": [{ "slug": "slack.post" }]
        }"#,
        false,
        calling(
            r#"{ "tool_call": {
                "slug": "slack.post",
                "args": { "text": "hi" },
                "connection_ref": "attacker_acct"
            } }"#,
        ),
    );
    assert_eq!(value.at("json").at("tool_result").text_at("connection"), Some("node_acct"));
}

#[test]
fn output_parser_sub_port_repairs_agent_output() {
    // The completion is missing a required `name`; what the parser hands back
    // is the envelope's structure.
    let cfg = json(
        r#"{
            "prompt": "hi",
            "output_parser": { "schema": { "type": "object", "required": ["name"] } }
        }"#,
    );
    match after_completion(&cfg, json(r#"{ "wrong": 1 }"#)) {
        AgentStep::Parse { value, schema, auto_fix, connection, pending } => {
            assert_eq!(value, json(r#"{ "wrong": 1 }"#));
            assert_eq!(schema, json(r#"{ "type": "object", "required": ["name"] }"#));
            assert!(auto_fix);
            assert_eq!(connection, None);
            match after_parse(&json(r#"{ "name": "fixed" }"#), pending) {
                AgentStep::Emit { item, .. } => {
                    assert_eq!(item.json.at("json"), json(r#"{ "name": "fixed" }"#));
                    assert_eq!(item.json.at("raw"), json(r#"{ "wrong": 1 }"#));
                },
                other => panic!("expected an item, got {other:?}"),
            }
        },
        other => panic!("expected the parser, got {other:?}"),
    }
}

#[test]
fn agent_ref_routes_to_the_registered_agent_kind() {
    let (value, _) = turn(
        r#"{ "agent_ref": "code_executor", "prompt": "fix the bug" }"#,
        true,
        MockCaps::new(),
    );
    assert_eq!(value.at("json").text_at("agent"), Some("code_executor"));
    assert_eq!(value.at("json").at("request").text_at("prompt"), Some("fix the bug"));
}

#[test]
fn agent_ref_is_ignored_without_a_runner() {
    let (value, _) =
        turn(r#"{ "agent_ref": "researcher", "prompt": "hi" }"#, false, MockCaps::new());
    assert_eq!(value.at("json").at("completion").text_at("prompt"), Some("hi"));
    assert!(value.at("json").get("agent").is_none());
}

#[test]
fn empty_agent_ref_falls_back_to_completion() {
    let (value, _) = turn(r#"{ "agent_ref": "", "prompt": "hi" }"#, true, MockCaps::new());
    assert_eq!(value.at("json").at("completion").text_at("prompt"), Some("hi"));
    assert_eq!(agent_ref_of(&json(r#"{ "agent_ref": "" }"#)), None);
}

#[test]
fn agent_kind_skips_inline_tool_subport() {
    // A named agent owns its own tool loop.
    let (value, _) = turn(
        r#"{
            "agent_ref": "researcher",
            "prompt": "do it",
            "tools": [{ "slug": "web.search" }]
        }"#,
        true,
        MockCaps::new().on_agent(
            "researcher",
            Respond::value(json(
                r#"{ "agent": "researcher", "tool_call": { "slug": "web.search" } }"#,
            )),
        ),
    );
    assert_eq!(value.at("json").text_at("agent"), Some("researcher"));
    assert!(value.at("json").get("tool_result").is_none());
}

#[test]
fn prose_completion_populates_text_accessor() {
    let (value, _) =
        turn(r#"{ "prompt": "hi" }"#, false, calling(r#"{ "text": "the answer is 42" }"#));
    assert_eq!(value.text_at("text"), Some("the answer is 42"));
    assert_eq!(value.at("json").text_at("text"), Some("the answer is 42"));
    assert_eq!(value.at("raw").text_at("text"), Some("the answer is 42"));
}

#[test]
fn plain_agent_without_sub_ports_is_unchanged() {
    let (value, _) = turn(r#"{ "prompt": "hi" }"#, false, MockCaps::new());
    assert_eq!(value.at("json").at("completion").text_at("prompt"), Some("hi"));
    assert!(value.at("json").get("tool_result").is_none());
}

#[test]
fn a_limit_stop_is_visible_and_skips_the_output_parser() {
    let cfg = json(
        r#"{
            "agent_ref": "triager",
            "output_parser": {
                "schema": { "type": "object", "required": ["definitely_absent"] },
                "auto_fix": false
            }
        }"#,
    );
    let outcome = AgentRunOutcome {
        stop: StopReason::LimitStop { limit: "max_steps".into() },
        text: Some("got as far as I could".into()),
        json: json(r#"{ "partial": true }"#),
        raw: json(r#"{ "partial": true }"#),
        usage: None,
        transcript: Vec::new(),
    };
    match finish_agent_run("n", &cfg, "triager", outcome) {
        AgentStep::Emit { item, .. } => {
            let value = item.json;
            assert_eq!(value.at("meta").text_at("stop"), Some("limit_stop"));
            assert_eq!(value.at("meta").text_at("limit"), Some("max_steps"));
            assert_eq!(value.at("json").at("partial").as_bool(), Some(true));
            assert_eq!(value.text_at("text"), Some("got as far as I could"));
        },
        other => panic!("expected an item, got {other:?}"),
    }
}

#[test]
fn a_paused_agent_fails_loudly_rather_than_looking_finished() {
    let outcome = AgentRunOutcome {
        stop: StopReason::Paused {
            token: None,
            reason: "tool_approval".into(),
            payload: Json::Null,
        },
        text: None,
        json: Json::Null,
        raw: Json::Null,
        usage: None,
        transcript: Vec::new(),
    };
    match finish_agent_run("n", &json(r#"{ "agent_ref": "triager" }"#), "triager", outcome) {
        AgentStep::Fail { error: EngineError::Capability(message) } => {
            assert!(message.contains("paused"), "{message}");
            assert!(message.contains("tool_approval"), "{message}");
        },
        other => panic!("expected a failure, got {other:?}"),
    }
}

#[test]
fn declared_context_still_resolves_without_a_harness() {
    let cfg = json(
        r#"{
            "prompt": "hi",
            "context": [{ "kind": "memory", "scope": "user", "query": "prefs" }]
        }"#,
    );
    match run_turn(&cfg, false) {
        AgentStep::ResolveContext { sources } => {
            assert_eq!(sources, cfg.at("context"));
            let blocks = json(r#"[{ "source_kind": "memory", "data": { "results": [] } }]"#);
            match with_context(&cfg, blocks.clone()) {
                AgentStep::Complete { request, .. } => {
                    assert_eq!(request.at("context"), blocks);
                    assert_eq!(request.text_at("prompt"), Some("hi"));
                },
                other => panic!("expected a completion, got {other:?}"),
            }
        },
        other => panic!("expected the context, got {other:?}"),
    }
}

#[test]
fn a_legacy_host_receives_the_byte_identical_config_it_always_did() {
    let config = r#"{
        "agent_ref": "researcher",
        "prompt": "hi",
        "connection_ref": "acct_9"
    }"#;
    let (value, _) = turn(config, true, MockCaps::new());
    assert_eq!(value.at("raw").text_at("agent"), Some("researcher"));
    assert_eq!(value.at("raw").at("request"), json(config));
    assert_eq!(value.at("raw").text_at("connection"), Some("acct_9"));
    assert_eq!(value.at("meta").text_at("stop"), Some("finished"));
}

#[test]
fn an_agents_usage_is_recorded_beside_its_answer() {
    let mut outcome = AgentRunOutcome::finished(json(r#"{ "text": "done" }"#));
    outcome.usage = Some(AgentUsage {
        input_tokens: Some(7),
        output_tokens: None,
        steps: Some(1),
        tool_calls: None,
    });
    match finish_agent_run("n", &json("{}"), "triager", outcome) {
        AgentStep::Emit { item, .. } => {
            let meta = item.json.at("meta");
            assert_eq!(meta.text_at("agent_ref"), Some("triager"));
            assert_eq!(meta.at("usage").at("steps").as_u64(), Some(1));
            assert_eq!(meta.at("usage").at("input_tokens").as_u64(), Some(7));
            assert!(meta.at("usage").get("tool_calls").is_none());
        },
        other => panic!("expected an item, got {other:?}"),
    }
}

fn request(config: Json) -> AgentRunRequest {
    AgentRunRequest {
        agent: AgentDefinition::new("researcher"),
        model: AgentModelSelection::default(),
        input: AgentInput { text: String::new(), data: Vec::new() },
        context: Vec::new(),
        tools: Vec::new(),
        connection_ref: Some("conn_1".to_string()),
        working_dir: None,
        identity: AgentRunIdentity::default(),
        metadata: Vec::new(),
        output_schema: None,
        config,
    }
}

#[test]
fn the_default_run_forwards_the_config_verbatim_to_run_agent() {
    let config = json(r#"{ "prompt": "hi", "agent_ref": "researcher" }"#);
    let call = request(config.clone()).as_call();
    let mut mocks = MockCaps::new();
    let asked = Double::new(None).run_agent(
        &mut mocks,
        &call.agent_ref,
        call.request,
        call.connection_ref.as_deref(),
    );
    let outcome = AgentRunOutcome::finished(returned(&mut mocks, asked));
    assert_eq!(outcome.raw.text_at("agent"), Some("researcher"));
    assert_eq!(outcome.raw.at("request"), config);
    assert_eq!(outcome.raw.text_at("connection"), Some("conn_1"));
    assert_eq!(outcome.stop, StopReason::Finished);
}

#[test]
fn the_default_tool_resolver_passes_grants_through_undescribed() {
    let grants = vec![
        ToolGrant::new("github.*"),
        ToolGrant {
            slug: "slack.post".to_string(),
            connection_ref: Some("acct_slack".to_string()),
        },
    ];
    let tools = resolve_tools(&grants, Some("node_conn"));
    assert_eq!(tools[0].slug, "github.*", "patterns are forwarded verbatim");
    assert_eq!(
        tools[0].connection_ref.as_deref(),
        Some("node_conn"),
        "a grant without its own connection falls back to the node's"
    );
    assert_eq!(
        tools[1].connection_ref.as_deref(),
        Some("acct_slack"),
        "a grant's own connection wins"
    );
    assert!(tools[0].input_schema.is_none());
    assert_eq!(tools[1], ToolDescriptor::from_grant(&grants[1], None));
}

#[test]
fn finished_derives_text_and_json_like_the_envelope() {
    let from_object = AgentRunOutcome::finished(json(r#"{ "text": "done", "n": 1 }"#));
    assert_eq!(from_object.text.as_deref(), Some("done"));
    assert_eq!(from_object.json, json(r#"{ "text": "done", "n": 1 }"#));
    assert!(from_object.is_finished());

    let from_string = AgentRunOutcome::finished(json("\"just prose\""));
    assert_eq!(from_string.text.as_deref(), Some("just prose"));
    assert_eq!(from_string.json, Json::Null, "a scalar carries no structure");
    assert_eq!(prose(&json("3")), None);
    assert_eq!(structure(&json("[1]")), json("[1]"));
}

#[test]
fn stop_reasons_have_stable_wire_names() {
    assert_eq!(StopReason::Finished.as_str(), "finished");
    assert_eq!(StopReason::LimitStop { limit: "max_steps".into() }.as_str(), "limit_stop");
}

#[test]
fn a_block_holds_prose_or_structure() {
    let block = ContextBlock::text("Body", "text", "hello");
    assert_eq!(block.text.as_deref(), Some("hello"));
    assert_eq!(block.data, Json::Null);
    let block = ContextBlock::data("Rows", "items", json("[1]"));
    assert_eq!(block.text, None);
    assert_eq!(block.data, json("[1]"));
    assert!(AgentModelSelection::default().is_empty());
}

#[test]
fn limits_narrow_but_never_widen() {
    let definition =
        AgentLimits { max_steps: Some(8), max_tool_calls: Some(20), max_seconds: None };
    let node = AgentLimits { max_steps: Some(4), max_tool_calls: Some(99), max_seconds: Some(30) };
    assert_eq!(
        definition.narrowed_by(&node),
        AgentLimits { max_steps: Some(4), max_tool_calls: Some(20), max_seconds: Some(30) }
    );
    assert!(AgentLimits::default().is_empty());
}

#[test]
fn a_pattern_grant_covers_its_namespace_only() {
    let grant = ToolGrant::new("github.*");
    assert!(grant.is_pattern());
    assert!(grant.covers("github.add_labels"));
    assert!(!grant.covers("gitlab.add_labels"));
    assert!(!ToolGrant::new("github.add_labels").covers("github.search"));
}

#[test]
fn a_star_without_a_namespace_is_an_exact_slug() {
    for slug in ["git*", "*"] {
        let grant = ToolGrant::new(slug);
        assert!(!grant.is_pattern());
        assert!(!grant.covers("github.add_labels"));
        assert!(grant.covers(slug));
    }
}

#[test]
fn a_definition_is_made_of_its_id_alone() {
    let agent = AgentDefinition::new("researcher");
    assert_eq!(agent.id, "researcher");
    assert_eq!(agent.model, None);
    assert!(agent.tools.is_empty());
    assert!(agent.limits.is_empty());
}

#[test]
fn a_unit_kind_needs_no_payload() {
    let source = ContextSource::new(ContextSourceKind::Items);
    assert_eq!(source.kind, ContextSourceKind::Items);
    assert_eq!(source.label_or_index(2), "context_2");
}

#[test]
fn an_unlabelled_source_is_named_by_its_position() {
    let source = ContextSource::new(ContextSourceKind::Items);
    assert_eq!(source.label_or_index(2), "context_2");
    assert!(!source.optional, "sources are required by default");
    assert_eq!(source.kind.as_str(), "items");
}

fn entry(kind: &str, text: &str) -> TranscriptEntry {
    TranscriptEntry { at_ms: 0, kind: kind.into(), text: text.into() }
}

/// A harness that tells what its agent did, in two entries.
fn telling(agent_ref: &str) -> AgentRunOutcome {
    AgentRunOutcome {
        transcript: vec![entry("agent_thinking", "thinking"), entry("agent_message", agent_ref)],
        ..AgentRunOutcome::finished(json("{}"))
    }
}

/// A harness that knows of no transcripts.
fn silent(agent_ref: &str) -> AgentRunOutcome {
    AgentRunOutcome::finished(Json::Object(vec![(
        "agent".to_string(),
        Json::String(agent_ref.to_string()),
    )]))
}

/// Runs the whole node. Its turns end in the opposite of item order.
fn execute(harness: fn(&str) -> AgentRunOutcome, config: &str, seeds: &[u64]) -> NodeOutput {
    let node = agent_node(config);
    let input: Vec<Item> =
        seeds.iter().map(|n| Item::new(json(&format!("{{ \"seed\": {n} }}")))).collect();
    let ctx = NodeContext {
        node: &node,
        input: &input,
        run: &Json::Null,
        nodes: &Json::Null,
        lane: None,
        resume: None,
        step: 0,
    };
    let mut mocks = MockCaps::new();
    let mut ended = Vec::new();
    for turn in AgentNode.execute(&ctx).into_iter().rev() {
        let mut step = run_turn(&node.config, true);
        loop {
            step = match step {
                AgentStep::RunAgent { agent_ref } => {
                    finish_agent_run("n", &node.config, &agent_ref, harness(&agent_ref))
                },
                AgentStep::Complete { request, connection } => {
                    let call =
                        Double::new(None).complete(&mut mocks, request, connection.as_deref());
                    after_completion(&node.config, returned(&mut mocks, call))
                },
                AgentStep::Emit { item, transcript } => {
                    ended.push(TurnResult {
                        item_index: turn.item_index,
                        item,
                        transcript,
                        diagnostics: Vec::new(),
                    });
                    break;
                },
                other => panic!("unexpected step {other:?}"),
            };
        }
    }
    AgentNode.join(&ctx, ended)
}

fn kinds(output: &NodeOutput) -> Vec<&str> {
    output.transcript.iter().map(|e| e.kind.as_str()).collect()
}

#[test]
fn a_harness_transcript_reaches_the_node_output() {
    let out = execute(telling, r#"{ "agent_ref": "triager" }"#, &[1]);
    assert_eq!(kinds(&out), ["agent_thinking", "agent_message"]);
}

#[test]
fn per_item_turns_accumulate_into_one_transcript() {
    let out = execute(
        telling,
        r#"{ "agent_ref": "triager", "execution": "per_item" }"#,
        &[1, 2, 3],
    );
    assert_eq!(out.items.len(), 3, "one turn per input item");
    assert_eq!(out.transcript.len(), 6, "two entries per turn, all three turns kept");
}

#[test]
fn a_legacy_host_reports_no_transcript() {
    let out = execute(silent, r#"{ "agent_ref": "triager" }"#, &[1]);
    assert!(out.transcript.is_empty());
    assert_eq!(out.items.len(), 1, "the turn still ran and still emitted");
}

#[test]
fn a_node_with_no_harness_reports_no_transcript() {
    let out = execute(telling, r#"{ "prompt": "hi" }"#, &[0]);
    assert!(out.transcript.is_empty());
    assert_eq!(out.items.len(), 1);
    assert_eq!(out.items[0].paired_item, None);
}

#[test]
fn per_item_transcripts_come_back_in_item_order() {
    let out = execute(
        telling,
        r#"{ "agent_ref": "triager", "execution": "per_item", "concurrency": 4 }"#,
        &[0, 1, 2, 3],
    );
    assert_eq!(out.transcript.len(), 8);
    assert_eq!(kinds(&out), ["agent_thinking", "agent_message"].repeat(4));
    let paired: Vec<Option<usize>> = out.items.iter().map(|item| item.paired_item).collect();
    assert_eq!(paired, [Some(0), Some(1), Some(2), Some(3)]);
}

#[test]
fn turns_are_joined_in_item_order_however_they_end() {
    let node = agent_node(r#"{ "execution": "per_item" }"#);
    let input: Vec<Item> = (0..4).map(|_| Item::new(Json::Null)).collect();
    let ctx = NodeContext {
        node: &node,
        input: &input,
        run: &Json::Null,
        nodes: &Json::Null,
        lane: None,
        resume: None,
        step: 0,
    };
    let result = |i: usize| TurnResult {
        item_index: Some(i),
        item: Item::new(json(&i.to_string())),
        transcript: vec![entry("k", &format!("a{i}")), entry("k", &format!("b{i}"))],
        diagnostics: vec![NullResolution {
            location: i.to_string(),
            expression: "=x".to_string(),
        }],
    };
    // The turn for item 1 came to nothing, and the others ended in no order.
    let out = AgentNode.join(&ctx, vec![result(3), result(0), result(2)]);
    let jsons: Vec<Json> = out.items.iter().map(|item| item.json.clone()).collect();
    assert_eq!(jsons, [json("0"), json("2"), json("3")]);
    let paired: Vec<Option<usize>> = out.items.iter().map(|item| item.paired_item).collect();
    assert_eq!(paired, [Some(0), Some(2), Some(3)]);
    let texts: Vec<&str> = out.transcript.iter().map(|e| e.text.as_str()).collect();
    assert_eq!(texts, ["a0", "b0", "a2", "b2", "a3", "b3"]);
    let places: Vec<&str> = out.diagnostics.iter().map(|d| d.location.as_str()).collect();
    assert_eq!(places, ["0", "2", "3"]);
    assert_eq!(AgentNode.join(&ctx, vec![result(0), result(2), result(3)]), out);
}

#[test]
fn items_run_one_after_the_other_unless_told_otherwise() {
    assert_eq!(concurrency(&json("{}")), Concurrency::AtMost(1));
    assert_eq!(concurrency(&json(r#"{ "concurrency": 4 }"#)), Concurrency::AtMost(4));
    assert_eq!(concurrency(&json(r#"{ "concurrency": "all" }"#)), Concurrency::All);
    assert_eq!(concurrency(&json(r#"{ "concurrency": "many" }"#)), Concurrency::AtMost(1));
    assert_eq!(concurrency(&json(r#"{ "concurrency": -1 }"#)), Concurrency::AtMost(1));
}

#[test]
fn a_failing_item_is_treated_as_configured() {
    assert_eq!(on_item_error(&json("{}")), None);
    for (text, policy) in [
        ("collect", OnItemError::Collect),
        ("skip", OnItemError::Skip),
        ("fail_fast", OnItemError::FailFast),
    ] {
        let config = json(&format!("{{ \"on_item_error\": \"{text}\" }}"));
        assert_eq!(on_item_error(&config), Some(policy));
    }
    assert_eq!(on_item_error(&json(r#"{ "on_item_error": "ignore" }"#)), None);
}
