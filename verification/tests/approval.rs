//! The `approval` node: a subject, a human, and what they decide.
use tinyflows::data::Item;
use tinyflows::json::Json;
use tinyflows::json_text::parse;
use tinyflows::model::graph::{Node, NodeKind};
use tinyflows::nodes::approval::{
    positive_u64, ApprovalNode, ApprovalOutcome, ApprovalStep, OnReject, OnTimeout, WaitMode,
    Withdrawal, DEFAULT_MAX_POLLS, DEFAULT_POLL_INTERVAL_MS,
};
use tinyflows::nodes::approval_request::{
    build_request, decision_from_resume, names, ApprovalDecision, ApprovalRequest,
    ApprovalSubject,
};
use tinyflows::nodes::{EngineError, NodeContext, NodeControl, NodeOutput};

fn json(text: &str) -> Json {
    parse(text).expect("valid JSON")
}

fn request(id: &str) -> ApprovalRequest {
    ApprovalRequest {
        request_id: id.to_string(),
        node_id: "review".to_string(),
        run_id: None,
        title: None,
        prompt: None,
        subject: ApprovalSubject {
            kind: "url".to_string(),
            value: json("\"https://example.com/post/1\""),
        },
        assignees: vec![],
        metadata: Json::Null,
    }
}

/// One activation of a review of `input`, with the host's answer.
fn activate(
    config: &str,
    input: &str,
    run: &str,
    nodes: &str,
    answer: Option<ApprovalOutcome>,
) -> ApprovalStep {
    let node = Node {
        id: "review".into(),
        kind: NodeKind::Approval,
        type_version: 1,
        name: "review".into(),
        config: json(config),
        position: None,
    };
    let ctx = NodeContext {
        node: &node,
        input: &vec![Item::new(json(input))],
        run: &json(run),
        nodes: &json(nodes),
        lane: None,
        resume: None,
        step: 0,
    };
    ApprovalNode.execute(&ctx, &json(config), Vec::new(), answer)
}

const RUN: &str = r#"{ "id": "run-1" }"#;

fn finished(step: ApprovalStep) -> (Option<Withdrawal>, Result<NodeOutput, EngineError>) {
    match step {
        ApprovalStep::Finish { withdraw, result } => (withdraw, result),
        other => panic!("expected a result, got {other:?}"),
    }
}

fn decided(approved: bool, comment: Option<&str>) -> Option<ApprovalOutcome> {
    Some(ApprovalOutcome::Decided(ApprovalDecision {
        approved,
        decided_by: Some("mock-approver".into()),
        comment: comment.map(Into::into),
        payload: None,
    }))
}

/// A human decision is a minutes-to-days wait, and polling one burns
/// super-steps for nothing.
#[test]
fn wait_mode_defaults_to_suspend() {
    assert_eq!(WaitMode::from_config(&json("{}")), WaitMode::Suspend);
    assert_eq!(WaitMode::from_config(&json(r#"{ "wait_mode": "poll" }"#)), WaitMode::Poll);
    assert_eq!(WaitMode::from_config(&json(r#"{ "wait_mode": "nonsense" }"#)), WaitMode::Suspend);
}

/// An unrecognised policy must not drop a rejection on the floor.
#[test]
fn reject_and_timeout_policies_default_conservatively() {
    assert_eq!(OnReject::from_config(&json("{}")), OnReject::Route);
    assert_eq!(OnReject::from_config(&json(r#"{ "on_reject": "whatever" }"#)), OnReject::Route);
    assert_eq!(OnTimeout::from_config(&json("{}")), OnTimeout::Error);
    assert_eq!(
        OnTimeout::from_config(&json(r#"{ "on_timeout": "eventually" }"#)),
        OnTimeout::Error
    );
}

/// A denial wins over an approval delivered in the same resume value.
#[test]
fn resume_denial_beats_an_approval_in_the_same_value() {
    let req = request("run-1:review");
    let decision = decision_from_resume(
        &json(r#"{ "rejected": ["review"], "approved": ["review"] }"#),
        &req,
    )
    .expect("a decision");
    assert!(!decision.approved);
}

#[test]
fn resume_reads_a_verdict_inline_or_nested() {
    let req = request("run-1:review");

    let inline = decision_from_resume(
        &json(r#"{ "approved": true, "decided_by": "ada", "comment": "ship it" }"#),
        &req,
    )
    .expect("a decision");
    assert!(inline.approved);
    assert_eq!(inline.decided_by.as_deref(), Some("ada"));
    assert_eq!(inline.comment.as_deref(), Some("ship it"));

    let nested = decision_from_resume(
        &json(r#"{ "decision": { "approved": false, "comment": "wrong link" } }"#),
        &req,
    )
    .expect("a decision");
    assert!(!nested.approved);
    assert_eq!(nested.comment.as_deref(), Some("wrong link"));

    assert!(
        decision_from_resume(&json(r#"{ "unrelated": true }"#), &req).is_none(),
        "a resume that says nothing about this one leaves it pending"
    );
}

/// It can be addressed by node id or by its own request id.
#[test]
fn a_review_answers_to_its_node_id_and_its_request_id() {
    let req = request("run-1:review");
    assert!(names(Some(&json(r#"["review"]"#)), &req));
    assert!(names(Some(&json(r#"["run-1:review"]"#)), &req));
    assert!(!names(Some(&json(r#"["other"]"#)), &req));
    assert!(!names(None, &req));
}

#[test]
fn positive_config_fields_fall_back_on_zero_or_garbage() {
    assert_eq!(positive_u64(&json("{}"), "max_polls", 7), 7);
    assert_eq!(positive_u64(&json(r#"{ "max_polls": 0 }"#), "max_polls", 7), 7);
    assert_eq!(positive_u64(&json(r#"{ "max_polls": 3 }"#), "max_polls", 7), 3);
}

#[test]
fn an_approved_review_emits_the_subject_on_the_approved_port() {
    let config = r#"{
        "title": "Publish this?",
        "subject_kind": "url",
        "subject": "https://example.com/post/1"
    }"#;
    let asked = activate(config, "{}", RUN, "{}", None);
    match asked {
        ApprovalStep::Ask(request) => {
            assert_eq!(request.request_id, "run-1:review");
            assert_eq!(request.title.as_deref(), Some("Publish this?"));
        },
        other => panic!("expected a question, got {other:?}"),
    }
    let (withdraw, result) = finished(activate(config, "{}", RUN, "{}", decided(true, None)));
    assert_eq!(withdraw, None);
    let out = result.expect("approved");
    assert_eq!(out.port.as_deref(), Some("approved"));
    let item = &out.items[0].json;
    assert_eq!(item.at("approved").as_bool(), Some(true));
    assert_eq!(item.text_at("subject"), Some("https://example.com/post/1"));
    assert_eq!(item.text_at("subject_kind"), Some("url"));
    assert_eq!(item.text_at("decided_by"), Some("mock-approver"));
    let meta = out.meta.expect("meta");
    assert_eq!(meta.at("decision").at("approved").as_bool(), Some(true));
}

#[test]
fn the_subject_defaults_to_the_item_that_arrived() {
    let (_, result) = finished(activate(
        r#"{ "title": "Look at this" }"#,
        r#"{ "draft": "hello world" }"#,
        RUN,
        "{}",
        decided(true, None),
    ));
    let out = result.expect("approved");
    assert_eq!(out.items[0].json.at("subject"), json(r#"{ "draft": "hello world" }"#));
}

#[test]
fn a_rejection_routes_to_the_rejected_port_with_its_reason() {
    let (_, result) = finished(activate(
        r#"{ "title": "Publish this?" }"#,
        r#"{ "url": "https://example.com" }"#,
        RUN,
        "{}",
        decided(false, Some("mock rejection")),
    ));
    let out = result.expect("routed");
    assert_eq!(out.port.as_deref(), Some("rejected"));
    assert_eq!(out.items[0].json.at("approved").as_bool(), Some(false));
    assert_eq!(out.items[0].json.text_at("comment"), Some("mock rejection"));
}

#[test]
fn on_reject_error_fails_the_node_with_the_reviewer_and_reason() {
    let (_, result) = finished(activate(
        r#"{ "on_reject": "error" }"#,
        "null",
        RUN,
        "{}",
        decided(false, Some("mock rejection")),
    ));
    let EngineError::Capability(message) = result.expect_err("a rejection fails the node");
    assert_eq!(message, "approval node \"review\": rejected by mock-approver (mock rejection)");
}

#[test]
fn a_rejection_by_nobody_in_particular_is_still_by_somebody() {
    let anonymous = Some(ApprovalOutcome::Decided(ApprovalDecision::rejected(None)));
    let (_, result) =
        finished(activate(r#"{ "on_reject": "error" }"#, "null", RUN, "{}", anonymous));
    let EngineError::Capability(message) = result.expect_err("a rejection fails the node");
    assert_eq!(message, "approval node \"review\": rejected by an approver");
}

#[test]
fn a_rejection_can_be_dropped() {
    let (_, result) = finished(activate(
        r#"{ "on_reject": "drop" }"#,
        "null",
        RUN,
        "{}",
        decided(false, None),
    ));
    assert!(result.expect("dropped").items.is_empty());
}

#[test]
fn a_pending_review_pauses_the_run_and_names_itself() {
    let (withdraw, result) = finished(activate(
        r#"{ "title": "Publish this?" }"#,
        "null",
        RUN,
        "{}",
        Some(ApprovalOutcome::Pending),
    ));
    assert_eq!(withdraw, None);
    match result.expect("paused").control {
        Some(NodeControl::Interrupt { id, payload }) => {
            assert_eq!(id, "review");
            assert_eq!(payload.text_at("kind"), Some("approval"));
            assert_eq!(payload.text_at("title"), Some("Publish this?"));
        },
        other => panic!("expected a pause, got {other:?}"),
    }
}

#[test]
fn polling_spends_a_bounded_budget_then_follows_on_timeout() {
    let config = r#"{
        "wait_mode": "poll",
        "poll_interval_ms": 1,
        "max_polls": 2,
        "on_timeout": "route"
    }"#;
    let mut nodes = "{}".to_string();
    for polls in 1..=2u64 {
        let (withdraw, result) =
            finished(activate(config, "null", RUN, &nodes, Some(ApprovalOutcome::Pending)));
        assert_eq!(withdraw, None);
        let out = result.expect("polls on");
        assert_eq!(out.control, Some(NodeControl::Reenter { after_ms: 1 }));
        let meta = out.meta.expect("meta");
        assert_eq!(meta.at("polls").as_u64(), Some(polls));
        assert_eq!(meta.text_at("request_id"), Some("run-1:review"));
        nodes = format!("{{ \"review\": {{ \"polls\": {polls} }} }}");
    }
    let (withdraw, result) =
        finished(activate(config, "null", RUN, &nodes, Some(ApprovalOutcome::Pending)));
    let withdrawn = withdraw.expect("withdrawn rather than left in a queue");
    assert_eq!(withdrawn.request_id, "run-1:review");
    let out = result.expect("routed");
    assert_eq!(out.port.as_deref(), Some("timeout"));
    assert_eq!(out.items[0].json.at("timed_out").as_bool(), Some(true));
}

#[test]
fn on_timeout_error_is_the_default_and_names_the_node() {
    let (_, result) = finished(activate(
        r#"{ "wait_mode": "poll", "poll_interval_ms": 1, "max_polls": 1 }"#,
        "null",
        RUN,
        r#"{ "review": { "polls": 1 } }"#,
        Some(ApprovalOutcome::Pending),
    ));
    let EngineError::Capability(message) = result.expect_err("unanswered");
    assert!(message.contains("review"), "{message}");
    assert!(message.contains("no decision after 1 polls"), "{message}");
}

#[test]
fn polling_has_defaults() {
    let (_, result) = finished(activate(
        r#"{ "wait_mode": "poll" }"#,
        "null",
        RUN,
        "{}",
        Some(ApprovalOutcome::Pending),
    ));
    assert_eq!(
        result.expect("polls").control,
        Some(NodeControl::Reenter { after_ms: DEFAULT_POLL_INTERVAL_MS })
    );
    assert!(DEFAULT_MAX_POLLS > 0);
}

#[test]
fn a_listed_approval_settles_the_review_without_asking_the_host() {
    let (withdraw, result) = finished(activate(
        r#"{ "title": "Publish this?" }"#,
        "null",
        r#"{ "id": "run-1", "approvals": ["review"] }"#,
        "{}",
        None,
    ));
    assert_eq!(result.expect("settled").port.as_deref(), Some("approved"));
    assert_eq!(withdraw.expect("withdrawn").reason, "resolved via resume");
}

/// A host without a provider still gets a working node: waiting is the pause it
/// already knows how to resume.
#[test]
fn with_no_provider_the_node_reduces_to_a_pause_the_host_resumes() {
    let config = r#"{ "title": "Publish this?" }"#;
    let asked = activate(config, "null", RUN, "{}", None);
    assert!(matches!(asked, ApprovalStep::Ask(_)), "{asked:?}");

    let unanswered = Some(ApprovalOutcome::Pending);
    let (_, paused) = finished(activate(config, "null", RUN, "{}", unanswered));
    match paused.expect("paused").control {
        Some(NodeControl::Interrupt { id, .. }) => assert_eq!(id, "review"),
        other => panic!("expected a pause, got {other:?}"),
    }

    let listed = r#"{ "id": "run-1", "approvals": ["review"] }"#;
    let (_, resumed) = finished(activate(config, "null", listed, "{}", None));
    let resumed = resumed.expect("resumed");
    assert_eq!(resumed.control, None);
    assert_eq!(resumed.port.as_deref(), Some("approved"));
}

#[test]
fn a_review_needs_an_identity_and_somebody_to_decide() {
    let node = Node {
        id: "review".into(),
        kind: NodeKind::Approval,
        type_version: 1,
        name: "review".into(),
        config: Json::Null,
        position: None,
    };
    let input = Vec::new();
    let nowhere = Json::Null;
    let somewhere = json(RUN);
    let ctx = |run| NodeContext {
        node: &node,
        input: &input,
        run,
        nodes: &Json::Null,
        lane: None,
        resume: None,
        step: 0,
    };
    let EngineError::Capability(text) =
        build_request(&ctx(&nowhere), &json("{}")).expect_err("no identity");
    assert!(text.contains("no `request_id` configured"), "{text}");
    let EngineError::Capability(text) =
        build_request(&ctx(&somewhere), &json(r#"{ "assignees": [] }"#)).expect_err("nobody");
    assert!(text.contains("empty array"), "{text}");
    let EngineError::Capability(text) =
        build_request(&ctx(&somewhere), &json(r#"{ "assignees": "ada" }"#)).expect_err("no list");
    assert!(text.contains("resolved to \"ada\", not an array"), "{text}");
    let request = build_request(&ctx(&nowhere), &json(r#"{ "request_id": "r", "assignees": ["ada", 3] }"#))
        .expect("explicit");
    assert_eq!(request.request_id, "r");
    assert_eq!(request.assignees, vec!["ada".to_string()]);
    assert_eq!(request.subject.kind, "json");
}

#[test]
fn a_spent_poll_count_is_no_bar_where_nothing_is_polled() {
    let spent = r#"{ "review": { "polls": 18446744073709551615 } }"#;
    let (_, result) =
        finished(activate("{}", "null", RUN, spent, Some(ApprovalOutcome::Pending)));
    assert!(matches!(result.expect("paused").control, Some(NodeControl::Interrupt { .. })));
    let (_, result) = finished(activate(
        r#"{ "wait_mode": "poll" }"#,
        "null",
        RUN,
        spent,
        decided(true, None),
    ));
    assert_eq!(result.expect("approved").port.as_deref(), Some("approved"));
}
