//! Stand-ins for capabilities, placeholders and globs.
use tinyflows::caps::mock_schema_aware::{
    placeholder_for_schema, placeholder_for_type, SchemaAwareMockAgentRunner, SchemaAwareMockLlm,
};
use tinyflows::json::Json;
use tinyflows::json_text::parse;
use tinyflows::model::graph::WorkflowGraph;
use tinyflows::testkit::double::{read_shell_outcome, Double, ShellRequest};
use tinyflows::testkit::glob::glob_matches;
use tinyflows::testkit::mocks::{CallOutcome, Matcher, MockCaps, Respond};
use tinyflows::testkit::sample::sample_for_schema;

fn json(text: &str) -> Json {
    parse(text).expect("valid JSON")
}

#[test]
fn a_star_stands_for_any_run() {
    assert!(glob_matches("*", ""));
    assert!(glob_matches("*", "anything"));
    assert!(glob_matches("github.*", "github.add_labels"));
    assert!(!glob_matches("github.*", "gitlab.add_labels"));
    assert!(glob_matches("a*b", "abb"));
    assert!(glob_matches("*mid*", "a mid b"));
    assert!(!glob_matches("a*b*c", "acb"));
    assert!(glob_matches("exact", "exact"));
    assert!(!glob_matches("exact", "exactly"));
    assert!(!glob_matches("", "x"));
    assert!(glob_matches("", ""));
}

#[test]
fn a_call_no_rule_matches_is_echoed_and_logged() {
    let mut mocks = MockCaps::new();
    let double = Double::new(Some("n"));
    let call = double.invoke(&mut mocks, "slack.post", json(r#"{ "a": 1 }"#), Some("acct"));
    assert!(call.answer.waits.is_empty());
    assert_eq!(
        mocks.settle(call),
        CallOutcome::Returned(json(
            r#"{ "tool": "slack.post", "args": { "a": 1 }, "connection": "acct" }"#
        ))
    );
    let calls = mocks.log().calls();
    assert_eq!(calls.len(), 1);
    assert_eq!(calls[0].seq, 0);
    assert_eq!(calls[0].capability, "tools");
    assert_eq!(calls[0].target, "slack.post");
    assert_eq!(calls[0].node_id.as_deref(), Some("n"));
    assert_eq!(mocks.log().count("tools", Some("slack.*")), 1);
    assert_eq!(mocks.log().count("http", None), 0);
}

#[test]
fn the_first_rule_that_matches_answers() {
    let mut mocks = MockCaps::new()
        .on_tool("slack.*", Respond::value(json("1")))
        .on_tool("slack.post", Respond::value(json("2")));
    let call = Double::new(None).invoke(&mut mocks, "slack.post", Json::Null, None);
    assert_eq!(mocks.settle(call), CallOutcome::Returned(json("1")));
}

#[test]
fn a_sequence_repeats_its_last_answer() {
    let mut mocks = MockCaps::new().on_llm(Respond::sequence(vec![
        Respond::value(json("1")),
        Respond::error("boom"),
    ]));
    let double = Double::new(None);
    let mut seen = Vec::new();
    for _ in 0..3 {
        let call = double.complete(&mut mocks, Json::Null, None);
        seen.push(mocks.settle(call));
    }
    assert_eq!(seen[0], CallOutcome::Returned(json("1")));
    assert!(matches!(&seen[1], CallOutcome::Failed(text) if text.contains("boom")));
    assert_eq!(seen[1], seen[2]);
    assert_eq!(mocks.log().count("llm", None), 3);
}

#[test]
fn an_echo_is_the_capabilitys_own() {
    let mut mocks = MockCaps::new()
        .on_tool("echoed", Respond::Echo)
        .on_tool("empty", Respond::sequence(vec![]));
    let double = Double::new(None);
    for slug in ["echoed", "empty", "unprogrammed"] {
        let call = double.invoke(&mut mocks, slug, json("1"), None);
        assert_eq!(
            mocks.settle(call),
            CallOutcome::Returned(json(&format!(
                "{{ \"tool\": \"{slug}\", \"args\": 1, \"connection\": null }}"
            )))
        );
    }
}

#[test]
fn an_answer_may_be_delayed_and_still_be_the_answer() {
    let mut mocks = MockCaps::new()
        .on_http("https://*", Respond::after(5, Respond::after(7, Respond::value(json("3")))));
    let call = Double::new(None).request(
        &mut mocks,
        json(r#"{ "url": "https://example.invalid" }"#),
        None,
    );
    assert_eq!(call.answer.waits, vec![5, 7]);
    // A call that has not ended leaves no trace, and neither does one given up.
    assert_eq!(mocks.log().count("http", None), 0);
    assert_eq!(mocks.settle(call), CallOutcome::Returned(json("3")));
    assert_eq!(mocks.log().count("http", None), 1);
}

#[test]
fn calls_are_numbered_as_they_end() {
    let mut mocks = MockCaps::new()
        .on_tool("slow", Respond::after(50, Respond::value(json("1"))))
        .on_tool("fast", Respond::value(json("2")))
        .on_tool("given up", Respond::after(5000, Respond::value(json("3"))));
    let double = Double::new(None);
    let slow = double.invoke(&mut mocks, "slow", Json::Null, None);
    let given_up = double.invoke(&mut mocks, "given up", Json::Null, None);
    let fast = double.invoke(&mut mocks, "fast", Json::Null, None);
    assert_eq!(mocks.settle(fast), CallOutcome::Returned(json("2")));
    assert_eq!(mocks.settle(slow), CallOutcome::Returned(json("1")));
    drop(given_up);
    let calls = mocks.log().calls();
    assert_eq!(calls.len(), 2);
    assert_eq!((calls[0].seq, calls[0].target.as_str()), (0, "fast"));
    assert_eq!((calls[1].seq, calls[1].target.as_str()), (1, "slow"));
}

#[test]
fn a_value_for_a_schema_meets_it_at_every_depth() {
    let schema = json(
        r#"{
            "type": "object",
            "required": ["user", "note"],
            "properties": {
                "user": {
                    "type": "object",
                    "required": ["name", "tags"],
                    "properties": { "name": { "type": "string" }, "tags": { "type": "array" } }
                },
                "level": { "enum": ["low", "high"] }
            }
        }"#,
    );
    let sample = sample_for_schema(&schema);
    assert!(sample.at("user").text_at("name").is_some());
    assert!(sample.at("user").at("tags").as_array().is_some());
    assert!(sample.get("note").is_some());
    assert_eq!(sample.text_at("level"), Some("low"));
    let mut mocks = MockCaps::new().on_llm(Respond::schema(schema));
    let call = Double::new(None).complete(&mut mocks, Json::Null, None);
    assert_eq!(mocks.settle(call), CallOutcome::Returned(sample));
}

#[test]
fn a_rule_can_be_held_to_one_node() {
    let mut mocks = MockCaps::new().on_llm(Respond::value(json("1"))).only_from("a");
    let from_a = Double::new(Some("a")).complete(&mut mocks, json("{}"), None);
    let from_b = Double::new(Some("b")).complete(&mut mocks, json("{}"), None);
    assert_eq!(mocks.settle(from_a), CallOutcome::Returned(json("1")));
    assert_eq!(
        mocks.settle(from_b),
        CallOutcome::Returned(json(r#"{ "completion": {}, "connection": null }"#))
    );
    let matcher = Matcher {
        capability: "llm".into(),
        target: "*".into(),
        node_id: Some("a".into()),
    };
    assert!(matcher.matches("llm", "", Some("a")));
    assert!(!matcher.matches("llm", "", None));
    assert!(!matcher.matches("http", "", Some("a")));
}

#[test]
fn stored_state_is_read_back() {
    let mut mocks = MockCaps::new();
    let mut double = Double::new(None);
    assert_eq!(double.load(&mut mocks, "k"), None);
    double.store(&mut mocks, "k", json("1"));
    double.store(&mut mocks, "other", json("2"));
    double.store(&mut mocks, "k", json("3"));
    assert_eq!(double.load(&mut mocks, "k"), Some(json("3")));
    assert_eq!(double.load(&mut mocks, "other"), Some(json("2")));
    assert_eq!(mocks.log().count("state", Some("k")), 4);
}

#[test]
fn a_workflow_is_resolved_by_its_id() {
    let mocks = MockCaps::new().with_workflow(
        "child",
        WorkflowGraph { name: "the child".into(), ..WorkflowGraph::default() },
    );
    assert_eq!(mocks.resolve("child").expect("registered").name, "the child");
    assert!(mocks.resolve("ghost").expect_err("unknown").contains("ghost"));
}

#[test]
fn a_script_comes_to_what_its_answer_says() {
    let request = ShellRequest {
        interpreter: "sh".into(),
        script: "echo hi".into(),
        cwd: None,
        env: Json::Null,
        input: Json::Null,
    };
    let mut mocks = MockCaps::new().on_shell(Respond::value(json(
        r#"{ "exit_code": 3, "stdout": "out", "stderr": "err" }"#,
    )));
    let call = Double::new(None).run(&mut mocks, &request);
    match mocks.settle(call) {
        CallOutcome::Returned(value) => {
            let outcome = read_shell_outcome(&value);
            assert_eq!(outcome.exit_code, 3);
            assert_eq!(outcome.stdout, "out");
            assert_eq!(outcome.stderr, "err");
        },
        other => panic!("expected a value, got {other:?}"),
    }
    // A value that is no description is itself the output.
    let outcome = read_shell_outcome(&json(r#"{"a":1}"#));
    assert_eq!((outcome.exit_code, outcome.stdout.as_str()), (0, "{\"a\":1}"));
}

#[test]
fn other_capabilities_answer_too() {
    let mut mocks = MockCaps::new()
        .on_code(Respond::value(json("\"coded\"")))
        .on_agent("scout", Respond::schema(json(r#"{ "type": "object", "required": ["n"] }"#)));
    let double = Double::new(None);
    let coded = double.run_code(&mut mocks, "javascript", "1", Json::Null);
    assert_eq!(mocks.settle(coded), CallOutcome::Returned(json("\"coded\"")));
    let ran = double.run_agent(&mut mocks, "scout", Json::Null, None);
    assert!(matches!(mocks.settle(ran), CallOutcome::Returned(Json::Object(_))));
    for call in [
        double.remember(&mut mocks, "user", "k", json("1")),
        double.recall(&mut mocks, "user", "q", Json::Null),
        double.forget(&mut mocks, "user", "k"),
        double.flavour(&mut mocks, "dry"),
        double.people(&mut mocks, None),
    ] {
        mocks.settle(call);
    }
    assert_eq!(mocks.log().count("memory", None), 5);
}

#[test]
fn a_placeholder_has_the_shape_its_schema_asks_for() {
    assert_eq!(placeholder_for_type(&json(r#"{ "type": "boolean" }"#)), json("false"));
    let schema = json(
        r#"{
            "type": "object",
            "properties": { "name": { "type": "string" }, "tags": { "type": "array" } }
        }"#,
    );
    let value = placeholder_for_schema(&schema);
    assert!(value.get("name").is_some());
    assert!(value.at("tags").as_array().is_some());
    let llm = SchemaAwareMockLlm;
    let request = Json::Object(vec![("schema".to_string(), schema)]);
    assert!(llm.complete(request.clone(), None).as_object().is_some());
    assert!(SchemaAwareMockAgentRunner.run_agent("scout", request, None).as_object().is_some());
}

#[test]
fn json_texts_are_read_as_values() {
    assert_eq!(parse("not json"), None);
    assert_eq!(parse("[1, -2, 0.5, \"x\", null, true]").expect("valid"), json("[1,-2,0.5,\"x\",null,true]"));
    assert_eq!(json("{\"a\": {\"b\": 7}}").at("a").at("b").as_u64(), Some(7));
    assert_ne!(json("1"), json("1.0"));
}

#[test]
fn a_number_is_printed_as_it_was_read() {
    // Texts whose shortest form has seventeen digits, and the ends of the range.
    for text in [
        "0.1",
        "1.7976931348623157e308",
        "5e-324",
        "31.245270191439438",
        "7120190517612959703.5",
        "122416294033786585.0",
        "0.30000000000000004",
    ] {
        let direct: serde_json::Value = serde_json::from_str(text).expect("valid JSON");
        assert_eq!(read_shell_outcome(&json(text)).stdout, direct.to_string(), "{text}");
    }
}
