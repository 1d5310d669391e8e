//! From a goal to something that can be run.
use std::hash::{Hash, Hasher};

use tinyflows::adaptive::contracts::{Approach, Goal, Tier};
use tinyflows::adaptive::intake::author::{
    answered_graph, author, author_request, catalogue as node_catalogue, check_graph,
    fingerprint, short_digest,
};
use tinyflows::adaptive::intake::catalogue::{catalogue, collapse_families, Summary};
use tinyflows::adaptive::intake::decide::{
    after_author, after_bind, after_select, decide, render_past, shown_lessons, DecideStep,
};
use tinyflows::adaptive::intake::reply::{
    ask_request, braced, clip, extract, first_object, peek, read_reply,
};
use tinyflows::adaptive::intake::select::{bind, select, select_request, Candidate, SYSTEM};
use tinyflows::adaptive::intake::shape::{shape_digest, shape_text};
use tinyflows::adaptive::intake::{Attempt, IntakeError};
use tinyflows::adaptive::ledger::conformance::{lesson, row};
use tinyflows::adaptive::ledger::{signatures, Score};
use tinyflows::catalog::contracts::{ConfigField, NodeKindContract, PortSpec};
use tinyflows::json::Json;
use tinyflows::json_text::parse;
use tinyflows::model::graph::{Edge, InputType, Node, NodeKind, WorkflowGraph, WorkflowInput};
use tinyflows::validate::validate_all;

fn json(text: &str) -> Json {
    parse(text).expect("valid JSON")
}

fn candidate(id: &str, applied: u32, helped: u32) -> Candidate {
    Candidate {
        id: id.to_string(),
        name: format!("the {id} workflow"),
        description: "reviews a closed issue end to end".to_string(),
        node_count: 4,
        applied,
        helped,
    }
}

/// A minimal graph that validates: one trigger, one transform.
fn tiny_graph(name: &str, required_input: Option<&str>) -> WorkflowGraph {
    let node = |id: &str, kind: NodeKind, name: &str, config: &str| Node {
        id: id.into(),
        kind,
        type_version: 1,
        name: name.into(),
        config: json(config),
        position: None,
    };
    WorkflowGraph {
        schema_version: 1,
        id: Some(name.to_string()),
        name: name.to_string(),
        inputs: required_input
            .map(|n| {
                vec![WorkflowInput {
                    name: n.to_string(),
                    ty: InputType::String,
                    required: true,
                    default: None,
                    description: None,
                }]
            })
            .unwrap_or_default(),
        agents: Vec::new(),
        nodes: vec![
            node("start", NodeKind::Trigger, "manual", r#"{"trigger_kind": "manual"}"#),
            node("done", NodeKind::Transform, "done", r#"{"set": {"ok": true}}"#),
        ],
        edges: vec![Edge {
            from_node: "start".into(),
            from_port: "main".into(),
            to_node: "done".into(),
            to_port: "main".into(),
        }],
    }
}

fn contract(kind: &str, outputs: &[&str], config_fields: Vec<ConfigField>) -> NodeKindContract {
    NodeKindContract {
        kind: kind.to_string(),
        summary: format!("what {kind} is for"),
        description: String::new(),
        config_fields,
        ports: PortSpec::new(&["main"], outputs),
        example: Json::Null,
        notes: vec![],
    }
}

/// The contracts an engine brings along for the kinds it runs.
fn engine_contracts() -> Vec<NodeKindContract> {
    vec![
        contract(
            "trigger",
            &["main"],
            vec![ConfigField::required("trigger_kind", "enum", "what starts a run")
                .with_enum(&["manual", "schedule", "webhook"])],
        ),
        contract("agent", &["main"], vec![ConfigField::optional("prompt", "string", "the task")]),
        contract("tool_call", &["main"], vec![ConfigField::required("slug", "string", "the tool")]),
        contract(
            "http_request",
            &["main"],
            vec![ConfigField::required("url", "string", "where to")],
        ),
        contract("condition", &["true", "false"], vec![]),
        contract("loop", &["body", "done"], vec![]),
    ]
}

fn summary(id: &str, description: &str, enabled: bool) -> Summary {
    Summary {
        id: id.to_string(),
        name: id.to_string(),
        description: description.to_string(),
        enabled,
        draft: false,
        node_count: 2,
    }
}

fn authored(answer: &str, name: &str) -> Result<Attempt, IntakeError> {
    author(&json(answer), tiny_graph(name, None), &vec![], None)
}

#[test]
fn a_listing_shows_both_counters_not_a_rate() {
    let rendered = candidate("pr-review", 40, 30).render();
    assert!(rendered.contains("run 40×, satisfied 30×"), "{rendered}");
    assert!(!rendered.contains("75"), "a rate hides the sample size");
}

#[test]
fn a_workflow_that_has_never_run_says_so_rather_than_showing_zeroes() {
    let rendered = candidate("fresh", 0, 0).render();
    assert!(rendered.contains("never run"), "{rendered}");
}

#[test]
fn a_workflow_with_no_description_says_it_cannot_be_chosen_on_purpose() {
    let mut c = candidate("bare", 0, 0);
    c.description = String::new();
    assert!(c.render().contains("nobody can choose this on purpose"));
}

#[test]
fn a_blank_name_falls_back_to_the_id() {
    let mut c = candidate("only-an-id", 1, 1);
    c.name = String::new();
    assert!(c.render().contains("name: only-an-id"));
}

#[test]
fn the_prompt_tells_the_model_that_declining_is_allowed() {
    // A model pushed to always pick will pick the nearest thing, and a near
    // miss runs to completion.
    assert!(SYSTEM.contains("or null"));
    assert!(SYSTEM.contains("worse than none"));
}

#[test]
fn the_catalogue_is_generated_from_the_engine() {
    let rendered = node_catalogue(engine_contracts());
    for kind in ["trigger", "agent", "tool_call", "http_request", "condition", "loop"] {
        assert!(rendered.contains(kind), "catalogue is missing {kind}");
    }
}

#[test]
fn required_fields_are_marked() {
    let rendered = node_catalogue(engine_contracts());
    // `trigger_kind` is required on a trigger; a model that misses it authors a
    // graph that cannot start.
    assert!(rendered.contains("*trigger_kind"), "{rendered}");
}

#[test]
fn enum_fields_show_their_allowed_values() {
    assert!(
        node_catalogue(engine_contracts()).contains("manual"),
        "trigger_kind's values must be listed"
    );
}

#[test]
fn the_catalogue_ends_with_the_kinds_that_open_and_collect_lanes() {
    let rendered = node_catalogue(engine_contracts());
    assert!(rendered.starts_with("trigger: what trigger is for\n    *trigger_kind: enum ["));
    assert!(rendered.contains("condition: what condition is for\n  out ports: true, false\n"));
    let scatter = rendered.find("\nscatter: ").expect("scatter is listed");
    let gather = rendered.find("\ngather: ").expect("gather is listed");
    assert!(rendered.find("\nloop: ").expect("loop is listed") < scatter && scatter < gather);
    assert!(node_catalogue(vec![]).starts_with("scatter: "));
}

#[test]
fn a_graph_with_no_trigger_is_refused_rather_than_returned() {
    let empty = || WorkflowGraph { name: "no trigger".to_string(), ..WorkflowGraph::default() };
    assert!(!validate_all(&empty()).is_empty(), "an empty graph must not validate");
    match check_graph(Ok(empty())) {
        Err(IntakeError::Invalid(text)) => assert!(!text.is_empty()),
        other => panic!("expected a refusal, got {other:?}"),
    }
}

#[test]
fn a_bare_object_is_read_as_itself() {
    let answer = json(r#"{"workflow_id": "pr-review"}"#);
    assert_eq!(extract(&answer).unwrap().text_at("workflow_id"), Some("pr-review"));
}

#[test]
fn an_openai_shaped_envelope_is_unwrapped() {
    let answer =
        json(r#"{"choices": [{"message": {"content": "{\"workflow_id\":\"pr-review\"}"}}]}"#);
    assert_eq!(extract(&answer).unwrap().text_at("workflow_id"), Some("pr-review"));
}

#[test]
fn a_text_field_holding_json_is_read() {
    let answer = json(r#"{"text": "{\"workflow_id\":\"x\"}"}"#);
    assert_eq!(extract(&answer).unwrap().text_at("workflow_id"), Some("x"));
}

#[test]
fn prose_around_the_object_does_not_lose_it() {
    // Models do this whatever the response_format asked for.
    let answer = Json::Object(vec![(
        "text".to_string(),
        Json::String(
            "Sure! Here you go:\n```json\n{\"workflow_id\":\"x\"}\n```\nHope that helps."
                .to_string(),
        ),
    )]);
    assert_eq!(extract(&answer).unwrap().text_at("workflow_id"), Some("x"));
}

#[test]
fn an_answer_with_no_object_at_all_is_none_rather_than_a_panic() {
    assert!(extract(&json(r#"{"text": "I could not decide."}"#)).is_none());
    assert!(extract(&json(r#""just a string""#)).is_none());
}

#[test]
fn a_value_that_is_no_object_is_not_an_answer() {
    assert!(extract(&json(r#"{"text": "42"}"#)).is_none());
    assert!(extract(&json(r#"{"text": "\"{}\" is not it"}"#)).is_some());
    assert!(extract(&json(r#"{"text": "[1, 2]"}"#)).is_none());
    assert!(extract(&json(r#"{"choices": [{"message": {"content": "true"}}]}"#)).is_none());
    // The object inside a list is still found.
    let listed = json(r#"{"text": "[{\"workflow_id\":\"x\"}]"}"#);
    assert_eq!(extract(&listed).unwrap().text_at("workflow_id"), Some("x"));
    match read_reply(&json(r#"{"text": "42"}"#)) {
        Err(IntakeError::Inference(text)) => assert!(text.contains("42"), "{text}"),
        other => panic!("expected an error, got {other:?}"),
    }
}

#[test]
fn a_reply_without_an_object_is_an_error_that_shows_it() {
    match read_reply(&json(r#"{"text": "I could not decide."}"#)) {
        Err(IntakeError::Inference(text)) => {
            assert!(text.starts_with("no JSON object in the reply: "), "{text}");
            assert!(text.contains("I could not decide."), "{text}");
        },
        other => panic!("expected an error, got {other:?}"),
    }
    assert_eq!(
        read_reply(&json(r#"{"a": 1}"#)).expect("an object"),
        json(r#"{"a": 1}"#)
    );
}

#[test]
fn braces_are_found_from_the_first_to_the_last() {
    assert_eq!(braced("so {\"a\": {}} there").as_deref(), Some("{\"a\": {}}"));
    assert_eq!(braced("no braces"), None);
    assert_eq!(braced("} backwards {"), None);
}

#[test]
fn a_clipped_text_ends_between_characters() {
    assert_eq!(clip("abcdef", 4), "abcd");
    assert_eq!(clip("aé", 2), "a");
    assert_eq!(clip("aé", 3), "aé");
    assert_eq!(clip("short", 100), "short");
    assert!(peek(&json(r#"{"a": 1}"#)).contains("\"a\""));
}

#[test]
fn a_request_says_which_job_and_never_which_model() {
    assert_eq!(
        ask_request(Tier::Judge, "be brief", "judge this"),
        json(
            r#"{
                "tier": "judge",
                "messages": [
                    {"role": "system", "content": "be brief"},
                    {"role": "user", "content": "judge this"}
                ],
                "response_format": {"type": "json_object"}
            }"#
        )
    );
}

#[test]
fn an_empty_store_authors_without_asking_whether_to_select() {
    // With nothing to choose from the answer can only be "none".
    let goal = Goal::new("do a new thing");
    assert!(select_request(&goal, &[], "").is_none());
    match decide(&goal, &[], String::new()) {
        DecideStep::Author { past } => {
            let request = author_request(&goal, engine_contracts(), "", &past);
            let user = request.at("messages").as_array().expect("messages")[1].clone();
            assert!(
                user.text_at("content").expect("content").contains("Node catalogue"),
                "authoring must be grounded on the catalogue"
            );
        },
        other => panic!("expected authoring, got {other:?}"),
    }
    let written = authored(r#"{"why": "nothing stored", "inputs": {}}"#, "fresh");
    match after_author(written, vec![]) {
        DecideStep::Done { attempt } => {
            assert!(matches!(attempt.approach, Approach::Authored { .. }))
        },
        other => panic!("expected an attempt, got {other:?}"),
    }
}

#[test]
fn a_matching_workflow_is_selected_and_its_graph_is_loaded() {
    let goal = Goal::new("review a closed issue");
    let candidates = vec![candidate("pr-review", 0, 0)];
    let step = decide(&goal, &candidates, String::new());
    assert!(matches!(step, DecideStep::Select { retrying: false, .. }));
    let answer =
        json(r#"{"workflow_id": "pr-review", "why": "does exactly this", "inputs": {}}"#);
    let (attempt, past, retrying) =
        match after_select(&candidates, String::new(), false, Ok(answer)) {
            DecideStep::Bind { attempt, past, retrying } => (attempt, past, retrying),
            other => panic!("expected a look-up, got {other:?}"),
        };
    let found = Ok(Some(tiny_graph("pr-review", None)));
    match after_bind(&goal, &candidates, past, retrying, attempt, found, vec!["lsn_1".into()]) {
        DecideStep::Done { attempt } => {
            match attempt.approach {
                Approach::Selected { workflow_id, .. } => assert_eq!(workflow_id, "pr-review"),
                other => panic!("expected a selection, got {other:?}"),
            }
            assert_eq!(attempt.graph.nodes.len(), 2, "the stored graph must be loaded");
            assert_eq!(attempt.lessons_shown, vec!["lsn_1".to_string()]);
        },
        other => panic!("expected an attempt, got {other:?}"),
    }
}

#[test]
fn declining_falls_through_to_authoring() {
    let candidates = vec![candidate("unrelated", 0, 0)];
    let answer = json(r#"{"workflow_id": null, "why": "none of these fetch anything"}"#);
    let step = after_select(&candidates, "past".into(), false, Ok(answer));
    assert!(matches!(step, DecideStep::Author { .. }));
    let written = authored(r#"{"why": "had to write one", "inputs": {}}"#, "written");
    assert!(matches!(after_author(written, vec![]), DecideStep::Done { .. }));
}

#[test]
fn a_workflow_already_tried_this_episode_is_not_offered_again() {
    // Without it attempt two re-selects what attempt one already failed on.
    let mut spent = row("ep1", 1, "selected:pr-review");
    spent.workflow_id = Some("pr-review".to_string());
    let tried = signatures(&vec![spent]);
    let listed = [summary("pr-review", "reviews a closed issue", true)];
    let offered = catalogue(&listed, &[Score::default()], &tried);
    assert!(offered.is_empty());
    assert!(matches!(
        decide(&Goal::new("review a closed issue"), &offered, String::new()),
        DecideStep::Author { .. }
    ));
}

#[test]
fn a_selection_whose_required_input_is_missing_is_refused_before_it_runs() {
    // The model is confident about inputs it did not find in the goal. The
    // cheap deterministic check catches what the expensive one asserted.
    let goal = Goal::new("review the PRs");
    let candidates = vec![candidate("needs-repo", 0, 0)];
    let answer = json(r#"{"workflow_id": "needs-repo", "why": "matches", "inputs": {}}"#);
    let chosen = || select(&candidates, &answer).expect("on the list");
    let found = || Ok(Some(tiny_graph("needs-repo", Some("repo"))));

    let err = bind(chosen(), found()).expect_err("an unbindable selection");
    assert!(err.message().contains("repo"), "the error names the missing input");
    match err {
        IntakeError::Unbindable { id, missing } => {
            assert_eq!(id, "needs-repo");
            assert_eq!(missing, "repo");
        },
        other => panic!("expected an unbindable choice, got {other:?}"),
    }

    // One more round with the refusal on the table, and authoring after that.
    match after_bind(&goal, &candidates, "past".into(), false, chosen(), found(), vec![]) {
        DecideStep::Select { past, retrying, .. } => {
            assert!(retrying);
            assert!(past.contains("needs an input nothing supplied: repo"), "{past}");
            let again =
                after_bind(&goal, &candidates, past, true, chosen(), found(), vec![]);
            assert!(matches!(again, DecideStep::Author { .. }));
        },
        other => panic!("expected another selection, got {other:?}"),
    }
}

#[test]
fn an_empty_text_does_not_fill_a_required_input() {
    let candidates = vec![candidate("needs-repo", 0, 0)];
    for (inputs, binds) in [
        (r#"{"repo": ""}"#, false),
        (r#"{"repo": null}"#, false),
        (r#"{"repo": "acme/thing"}"#, true),
        (r#"{"repo": 3}"#, true),
    ] {
        let answer = json(&format!(
            "{{\"workflow_id\": \"needs-repo\", \"why\": \"\", \"inputs\": {inputs}}}"
        ));
        let attempt = select(&candidates, &answer).expect("on the list");
        let bound = bind(attempt, Ok(Some(tiny_graph("needs-repo", Some("repo")))));
        assert_eq!(bound.is_ok(), binds, "{inputs}");
    }
}

#[test]
fn a_workflow_that_is_gone_cannot_be_bound() {
    let candidates = vec![candidate("pr-review", 0, 0)];
    let answer = json(r#"{"workflow_id": "pr-review"}"#);
    let attempt = select(&candidates, &answer).expect("on the list");
    assert_eq!(
        bind(attempt, Ok(None)).expect_err("gone"),
        IntakeError::Store("workflow pr-review vanished".into())
    );
    let attempt = select(&candidates, &answer).expect("on the list");
    assert_eq!(
        bind(attempt, Err("disk".into())).expect_err("unread"),
        IntakeError::Store("disk".into())
    );
}

#[test]
fn a_hallucinated_workflow_id_reads_as_a_decline() {
    let candidates = vec![candidate("pr-review", 0, 0)];
    let answer = json(r#"{"workflow_id": "pr-reviews", "why": "close, but no such id"}"#);
    assert!(select(&candidates, &answer).is_none());
    assert!(
        matches!(
            after_select(&candidates, String::new(), false, Ok(answer)),
            DecideStep::Author { .. }
        ),
        "a name that is not on the list is a hallucination, not a lookup"
    );
}

#[test]
fn an_authored_graph_that_does_not_validate_is_an_error_not_a_return_value() {
    let err = check_graph(Ok(WorkflowGraph {
        schema_version: 1,
        name: "empty".into(),
        ..WorkflowGraph::default()
    }))
    .expect_err("an invalid graph must not leave intake");
    assert!(err.message().contains("invalid"));
    assert!(matches!(after_author(Err(err), vec![]), DecideStep::Fail { .. }));
}

#[test]
fn a_disabled_workflow_is_never_offered() {
    let listed = [summary("switched-off", "would have matched", false)];
    let offered = catalogue(&listed, &[Score::default()], &vec![]);
    assert!(offered.is_empty(), "offering it invites a choice that cannot be honoured");
}

#[test]
fn a_draft_is_never_offered() {
    let mut proposal = summary("weekly-fix", "a proposed repair", true);
    proposal.draft = true;
    let listed = [proposal, summary("weekly", "writes the report", true)];
    let offered = catalogue(&listed, &[Score::default(), Score::default()], &vec![]);
    assert_eq!(offered.iter().map(|c| c.id.as_str()).collect::<Vec<_>>(), vec!["weekly"]);
}

#[test]
fn an_offered_workflow_carries_its_score() {
    let listed = [summary("a", "does a", true), summary("b", "does b", true)];
    let scores = [Score { applied: 3, helped: 1 }, Score { applied: 0, helped: 0 }];
    let offered = catalogue(&listed, &scores, &vec!["selected:b".to_string()]);
    assert_eq!(offered.len(), 1);
    assert_eq!(offered[0].id, "a");
    assert_eq!((offered[0].applied, offered[0].helped), (3, 1));
    assert_eq!(offered[0].description, "does a");
}

#[test]
fn a_family_is_offered_once_by_its_champion() {
    let candidates = vec![
        candidate("weekly", 10, 5),
        candidate("weekly-fix", 4, 4),
        candidate("other", 0, 0),
    ];
    let family = || {
        vec![
            ("weekly".to_string(), Score { applied: 10, helped: 5 }),
            ("weekly-fix".to_string(), Score { applied: 4, helped: 4 }),
        ]
    };
    let alone = vec![("other".to_string(), Score { applied: 0, helped: 0 })];
    let kept = collapse_families(candidates, &vec![family(), family(), alone]);
    assert_eq!(
        kept.iter().map(|c| c.id.as_str()).collect::<Vec<_>>(),
        vec!["weekly-fix", "other"]
    );
}

#[test]
fn a_family_whose_champion_is_not_on_offer_is_not_dropped() {
    // The champion was tried this episode; its variant exists because it fell
    // short.
    let candidates = vec![candidate("weekly-fix", 0, 0)];
    let family = vec![
        ("weekly".to_string(), Score { applied: 10, helped: 9 }),
        ("weekly-fix".to_string(), Score { applied: 0, helped: 0 }),
    ];
    let kept = collapse_families(candidates, &vec![family]);
    assert_eq!(kept.len(), 1);
    assert_eq!(kept[0].id, "weekly-fix");
}

#[test]
fn the_best_member_still_on_offer_stands_for_its_family() {
    // The champion was tried this episode. Of the two variants left, the later
    // one has the better record.
    let candidates = vec![candidate("weekly-fix", 5, 1), candidate("weekly-fix-fix", 4, 4)];
    let family = || {
        vec![
            ("weekly".to_string(), Score { applied: 40, helped: 40 }),
            ("weekly-fix".to_string(), Score { applied: 5, helped: 1 }),
            ("weekly-fix-fix".to_string(), Score { applied: 4, helped: 4 }),
        ]
    };
    let kept = collapse_families(candidates, &vec![family(), family()]);
    assert_eq!(kept.iter().map(|c| c.id.as_str()).collect::<Vec<_>>(), vec!["weekly-fix-fix"]);
}

#[test]
fn what_the_host_rules_out_is_not_run() {
    let answer = json(r#"{"why": "w"}"#);
    let refused = vec!["no worker ci-box".to_string(), "no tool x".to_string()];
    assert_eq!(
        author(&answer, tiny_graph("g", None), &refused, None).expect_err("refused"),
        IntakeError::Unsupported("no worker ci-box; no tool x".into())
    );
    assert_eq!(
        author(&answer, tiny_graph("g", None), &vec![], Some("not here".into()))
            .expect_err("against policy"),
        IntakeError::Unsupported("not here".into())
    );
}

#[test]
fn an_authored_attempt_is_recognised_by_its_graph() {
    let attempt =
        authored(r#"{"why": "nothing stored", "inputs": {"a": 1}}"#, "fresh").expect("authored");
    let mark = fingerprint(&tiny_graph("fresh", None));
    assert_eq!(attempt.approach.signature(), format!("authored:{mark}"));
    assert_eq!(attempt.inputs, vec![("a".to_string(), json("1"))]);
}

#[test]
fn a_fingerprint_is_seven_digits_of_its_digest() {
    assert_eq!(short_digest(0), "0000000");
    assert_eq!(short_digest(0xabc), "0000abc");
    assert_eq!(short_digest(0x1234_5678_9abc_def0), "abcdef0");
    assert_eq!(short_digest(u64::MAX), "fffffff");
}

#[test]
fn an_answer_holds_its_graph_under_its_name() {
    let answer = json(r#"{"graph": {"nodes": []}, "why": "w"}"#);
    assert_eq!(answered_graph(&answer).expect("there"), json(r#"{"nodes": []}"#));
    assert!(answered_graph(&json(r#"{"why": "w"}"#)).is_err());
}

#[test]
fn each_intake_error_says_what_went_wrong() {
    assert_eq!(IntakeError::Store("x".into()).message(), "workflow store: x");
    assert_eq!(IntakeError::Inference("x".into()).message(), "inference: x");
    assert_eq!(IntakeError::Invalid("x".into()).message(), "authored an invalid graph: x");
    assert_eq!(
        IntakeError::Unsupported("x".into()).message(),
        "this host cannot run that graph: x"
    );
    assert_eq!(
        IntakeError::Unbindable { id: "w".into(), missing: "repo".into() }.message(),
        "workflow w needs an input nothing supplied: repo"
    );
}

#[test]
fn both_planners_are_told_the_history_and_the_lessons() {
    let mut known = lesson("a capped API");
    known.id = "lsn_00000001".into();
    let past = render_past(&[row("ep", 1, "selected:weekly")], &[known.clone()]);
    assert!(past.contains("[selected:weekly]"), "{past}");
    assert!(past.contains("page the listing rather than raising per_page"), "{past}");
    assert_eq!(shown_lessons(&[known]), vec!["lsn_00000001".to_string()]);
}

#[test]
fn what_a_graph_is_called_is_no_new_idea() {
    let first = tiny_graph("weekly", Some("repo"));
    let mut renamed = tiny_graph("a fresh name", Some("repo"));
    renamed.id = None;
    assert_eq!(shape_text(&first), shape_text(&renamed));
    // One that asks for nothing is another attempt, though every node matches.
    assert_ne!(shape_text(&first), shape_text(&tiny_graph("weekly", None)));
    renamed.nodes[1].config = json(r#"{"set": {"ok": false}}"#);
    assert_ne!(shape_text(&first), shape_text(&renamed));
}

#[test]
fn a_shape_holds_nodes_edges_and_inputs() {
    let shape = json(&shape_text(&tiny_graph("weekly", Some("repo"))));
    assert_eq!(shape.as_object().expect("an object").len(), 3);
    let nodes = shape.at("nodes");
    let start = &nodes.as_array().expect("nodes")[0];
    assert_eq!(start.text_at("id"), Some("start"));
    assert_eq!(start.text_at("kind"), Some("trigger"));
    assert_eq!(start.at("type_version").as_u64(), Some(1));
    assert_eq!(start.at("config").text_at("trigger_kind"), Some("manual"));
    assert!(start.get("position").is_none());
    let edges = shape.at("edges");
    assert_eq!(edges.as_array().expect("edges")[0].text_at("to_node"), Some("done"));
    let inputs = shape.at("inputs");
    let repo = &inputs.as_array().expect("inputs")[0];
    assert_eq!(repo.text_at("type"), Some("string"));
    assert_eq!(repo.at("required").as_bool(), Some(true));
    assert!(repo.get("default").is_none());
}

#[test]
fn a_repeat_has_the_signature_of_the_first() {
    let signature = |graph: WorkflowGraph, why: &str| {
        let answer = json(&format!("{{\"why\": \"{why}\"}}"));
        author(&answer, graph, &vec![], None).expect("authored").approach.signature()
    };
    let first = signature(tiny_graph("weekly", None), "nothing fits");
    assert_eq!(first, signature(tiny_graph("renamed", None), "a fresh idea"));
    assert_ne!(first, signature(tiny_graph("weekly", Some("repo")), "nothing fits"));
    // The mark is made of the digest that hashing the shape's text gives.
    let graph = tiny_graph("weekly", None);
    let mut hasher = std::collections::hash_map::DefaultHasher::new();
    shape_text(&graph).hash(&mut hasher);
    assert_eq!(shape_digest(&graph), hasher.finish());
    assert_eq!(fingerprint(&graph), format!("{:07x}", hasher.finish() & 0xfff_ffff));
    assert_eq!(first, format!("authored:{}", fingerprint(&graph)));
}

#[test]
fn an_object_is_looked_for_in_the_whole_text_first() {
    let object = || Some(json(r#"{"a": 1}"#));
    let other = || Some(json(r#"{"b": 2}"#));
    assert_eq!(first_object(object(), other()), object());
    assert_eq!(first_object(Some(json("42")), other()), other());
    assert_eq!(first_object(None, other()), other());
    assert_eq!(first_object(Some(json("[1]")), Some(json("true"))), None);
    assert_eq!(first_object(None, None), None);
}
