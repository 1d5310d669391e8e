//! Recipes and the graphs they stand for.
use tinyflows::adaptive::intake::recipe::{
    ask_expression, graph_name, jq_quote, lower, parse_declared, parse_steps, sanitize_id, Action,
};
use tinyflows::json::Json;
use tinyflows::json_text::parse;
use tinyflows::model::graph::{is_valid_input_name, NodeKind};
use tinyflows::validate::validate_all;

fn json(text: &str) -> Json {
    parse(text).expect("valid JSON")
}

fn review_recipe() -> Json {
    json(
        r#"{
            "why": "fetch then review",
            "declared": [
                { "name": "repo", "description": "owner/name to review", "required": true }
            ],
            "inputs": { "repo": "acme/thing" },
            "steps": [
                { "id": "fetch", "run": "gh issue list --json number,title" },
                { "id": "review", "ask": "Write the verdict report.", "reads": ["fetch"] }
            ]
        }"#,
    )
}

#[test]
fn a_recipe_lowers_to_a_graph_that_validates() {
    let (graph, inputs, why) = lower(&review_recipe()).expect("lowers");
    assert!(
        validate_all(&graph).is_empty(),
        "a lowered graph must always validate: {:?}",
        validate_all(&graph)
    );
    assert_eq!(graph.nodes.len(), 3, "trigger + two steps");
    assert_eq!(graph.nodes[1].kind, NodeKind::Shell);
    assert_eq!(graph.nodes[2].kind, NodeKind::Agent);
    assert_eq!(inputs, vec![("repo".to_string(), json("\"acme/thing\""))]);
    assert_eq!(why, "fetch then review");
}

#[test]
fn the_generated_prompt_is_one_expression_with_the_right_envelope_paths() {
    let (graph, _, _) = lower(&review_recipe()).expect("lowers");
    let prompt = graph.nodes[2].config.text_at("prompt").expect("prompt");
    // The whole string is an expression.
    assert!(prompt.starts_with('='), "{prompt}");
    // A shell upstream is read through `stdout`, the field its kind emits.
    assert!(prompt.contains(".nodes.fetch.item.json.stdout"), "{prompt}");
    // Declared inputs are attached without the model writing any binding.
    assert!(prompt.contains(".run.inputs.repo"), "{prompt}");
    // Absent values surface as markers, not silent nothing.
    assert!(prompt.contains("(no output)"), "{prompt}");
}

#[test]
fn an_agent_upstream_is_read_through_text_not_stdout() {
    let recipe = json(
        r#"{
            "why": "chain of agents",
            "steps": [
                { "id": "draft", "ask": "Draft it." },
                { "id": "polish", "ask": "Polish the draft.", "reads": ["draft"] }
            ]
        }"#,
    );
    let (graph, _, _) = lower(&recipe).expect("lowers");
    let prompt = graph.nodes[2].config.text_at("prompt").expect("prompt");
    assert!(prompt.contains(".nodes.draft.item.json.text"), "{prompt}");
}

#[test]
fn quotes_and_newlines_in_an_ask_survive_as_a_valid_jq_literal() {
    let recipe = json(
        r#"{
            "why": "quoting",
            "steps": [
                { "id": "speak", "ask": "Say \"hello\",\nthen stop." }
            ]
        }"#,
    );
    let (graph, _, _) = lower(&recipe).expect("lowers");
    let prompt = graph.nodes[1].config.text_at("prompt").expect("prompt");
    assert!(prompt.contains("\\\"hello\\\""), "{prompt}");
    assert!(prompt.contains("\\n"), "{prompt}");
}

#[test]
fn a_worker_on_an_ask_step_becomes_agent_ref() {
    let recipe = json(
        r#"{
            "why": "placed work",
            "steps": [
                { "id": "build", "ask": "Build it.", "worker": "ci-box" }
            ]
        }"#,
    );
    let (graph, _, _) = lower(&recipe).expect("lowers");
    assert_eq!(graph.nodes[1].config.text_at("agent_ref"), Some("ci-box"));
}

#[test]
fn every_structural_problem_is_reported_at_once_with_the_fix() {
    let recipe = json(
        r#"{
            "why": "broken",
            "steps": [
                { "id": "fetch", "run": "true", "reads": ["later"] },
                { "id": "fetch", "ask": "duplicate id" },
                { "id": "confused", "run": "true", "ask": "both" },
                { "id": "empty" }
            ]
        }"#,
    );
    let err = lower(&recipe).expect_err("refused").message();
    for fragment in ["EARLIER", "unique", "split it into two", "neither"] {
        assert!(err.contains(fragment), "missing `{fragment}` in: {err}");
    }
}

#[test]
fn a_reply_with_no_steps_says_what_to_return() {
    let err = lower(&json(r#"{ "why": "empty" }"#)).expect_err("refused").message();
    assert!(err.contains("at least one step"), "{err}");
}

#[test]
fn ids_are_sanitized_into_engine_and_jq_safe_names() {
    let recipe = json(
        r#"{
            "why": "messy ids",
            "steps": [
                { "id": "  Fetch-Issues! ", "run": "true" },
                { "id": "review", "ask": "Review.", "reads": ["Fetch-Issues!"] }
            ]
        }"#,
    );
    let (graph, _, _) = lower(&recipe).expect("lowers");
    assert_eq!(graph.nodes[1].id, "fetch_issues");
    let prompt = graph.nodes[2].config.text_at("prompt").expect("prompt");
    assert!(prompt.contains(".nodes.fetch_issues.item"), "{prompt}");
}

#[test]
fn the_steps_run_one_after_the_other() {
    let (graph, _, _) = lower(&review_recipe()).expect("lowers");
    let pairs: Vec<(&str, &str)> =
        graph.edges.iter().map(|e| (e.from_node.as_str(), e.to_node.as_str())).collect();
    assert_eq!(pairs, vec![(graph.nodes[0].id.as_str(), "fetch"), ("fetch", "review")]);
    assert_eq!(graph.nodes[0].kind, NodeKind::Trigger);
    assert_eq!(graph.nodes[1].config.text_at("script"), Some("gh issue list --json number,title"));
}

#[test]
fn declared_inputs_become_inputs_of_the_graph() {
    let (graph, _, _) = lower(&review_recipe()).expect("lowers");
    assert_eq!(graph.inputs.len(), 1);
    assert_eq!(graph.inputs[0].name, "repo");
    assert!(graph.inputs[0].required);
    assert_eq!(graph.inputs[0].description.as_deref(), Some("owner/name to review"));
}

#[test]
fn a_sanitized_id_is_left_alone_when_sanitized_again() {
    for raw in ["  Fetch-Issues! ", "a b", "__x__", "A1", ""] {
        let once = sanitize_id(raw);
        assert_eq!(sanitize_id(&once), once, "{raw}");
    }
    assert_eq!(sanitize_id("A b"), "a_b");
}

#[test]
fn a_jq_literal_quotes_its_text() {
    assert_eq!(jq_quote("plain"), "\"plain\"");
    assert_eq!(jq_quote("a\"b\\c"), "\"a\\\"b\\\\c\"");
}

#[test]
fn a_step_is_read_with_what_it_does() {
    let steps = parse_steps(&review_recipe()).expect("steps");
    assert_eq!(steps.len(), 2);
    assert!(matches!(&steps[0].action, Action::Run(text) if text.starts_with("gh issue")));
    assert_eq!(steps[1].reads, vec!["fetch".to_string()]);
    let declared = parse_declared(&review_recipe());
    let program = ask_expression("Go.", &steps[1].reads, &steps, &declared);
    assert!(program.starts_with("=\"Go.\""), "{program}");
}

#[test]
fn a_lowered_graph_is_named_by_its_first_ask_or_its_steps() {
    let steps = parse_steps(&review_recipe()).expect("steps");
    assert_eq!(graph_name(&steps), "Write the verdict report.");
    let long = json(
        r#"{ "steps": [
            { "id": "fetch", "run": "true" },
            { "id": "tell", "ask": "one two  three four five six seven" },
            { "id": "again", "ask": "something else" }
        ] }"#,
    );
    let steps = parse_steps(&long).expect("steps");
    assert_eq!(graph_name(&steps), "one two three four five six");
    let scripts = json(
        r#"{ "why": "no agent", "steps": [
            { "id": "fetch", "run": "true" },
            { "id": "check", "run": "false" }
        ] }"#,
    );
    let (graph, _, why) = lower(&scripts).expect("lowers");
    assert_eq!(graph.name, "fetch → check");
    assert_eq!(why, "no agent");
}

#[test]
fn an_input_that_could_not_be_declared_is_left_out() {
    let recipe = json(
        r#"{
            "declared": [
                { "name": "repo" },
                { "name": "!!" },
                { "name": "Repo", "required": true },
                { "name": "1st" },
                { "name": "branch" }
            ],
            "steps": [{ "id": "fetch", "run": "ls" }]
        }"#,
    );
    let (graph, _, _) = lower(&recipe).expect("lowers");
    assert!(validate_all(&graph).is_empty(), "{:?}", validate_all(&graph));
    let names: Vec<&str> = graph.inputs.iter().map(|i| i.name.as_str()).collect();
    assert!(names.contains(&"repo") && names.contains(&"branch"), "{names:?}");
    assert_eq!(names.iter().filter(|name| **name == "repo").count(), 1, "{names:?}");
    assert!(names.iter().all(|name| is_valid_input_name(name)), "{names:?}");
}

#[test]
fn a_jq_literal_stays_on_one_line_without_tabs() {
    let quoted = jq_quote("a\tb\r\nc");
    assert_eq!(quoted, "\"a\\tb\\r\\nc\"");
}

#[test]
fn a_worker_is_named_and_not_computed() {
    let recipe = json(
        r#"{ "steps": [{ "id": "build", "ask": "Build it.", "worker": "=item.worker" }] }"#,
    );
    let error = lower(&recipe).expect_err("refused").message();
    assert!(error.contains("step `build`: `worker` names a worker"), "{error}");
}
