//! Further edges: memory scopes, fan-out settings, deliveries and counters.
use tinyflows::adaptive::closing::{close, new_episode, Next};
use tinyflows::adaptive::contracts::{Approach, Blocker, Budget, Goal, Tier, Verdict};
use tinyflows::adaptive::intake::IntakeError;
use tinyflows::adaptive::ledger::memory::MemoryLedger;
use tinyflows::adaptive::ledger::{EpisodeStatus, LedgerError};
use tinyflows::catalog::contracts::{all_contracts, contract_gather, contract_scatter, ConfigField};
use tinyflows::data::Item;
use tinyflows::error::ValidationError;
use tinyflows::json::Json;
use tinyflows::json_text::parse;
use tinyflows::model::graph::{kind_name, Edge, Node, NodeKind, WorkflowGraph};
use tinyflows::nodes::approval::{ApprovalNode, ApprovalOutcome, ApprovalStep};
use tinyflows::nodes::approval_request::{decision_from_resume, ApprovalRequest, ApprovalSubject};
use tinyflows::nodes::{EngineError, NodeContext};
use tinyflows::text::{cut_at, decimal_text, holds_text, join, padded_text, split_words, trim};
use tinyflows::validate::validate_all;

fn json(text: &str) -> Json {
    parse(text).expect("valid JSON")
}

fn node(id: &str, kind: NodeKind, config: &str) -> Node {
    Node {
        id: id.into(),
        kind,
        type_version: 1,
        name: id.into(),
        config: json(config),
        position: None,
    }
}

fn reasons(kind: NodeKind, config: &str) -> Vec<String> {
    let graph = WorkflowGraph {
        nodes: vec![node("t", NodeKind::Trigger, "{}"), node("n", kind, config)],
        edges: vec![Edge {
            from_node: "t".into(),
            from_port: "main".into(),
            to_node: "n".into(),
            to_port: "main".into(),
        }],
        ..WorkflowGraph::default()
    };
    validate_all(&graph)
        .into_iter()
        .map(|error| match error {
            ValidationError::InvalidNodeConfig { reason, .. } => reason,
            other => panic!("unexpected {other:?}"),
        })
        .collect()
}

#[test]
fn memory_is_written_in_the_flow_only() {
    for operation in ["remember", "forget"] {
        for scope in ["user", "flows"] {
            let config = format!(
                "{{\"operation\": \"{operation}\", \"scope\": \"{scope}\", \"key\": \"k\", \"value\": 1}}"
            );
            let found = reasons(NodeKind::Memory, &config);
            assert_eq!(found.len(), 1, "{found:?}");
            assert_eq!(
                found[0],
                format!(
                    "memory node operation {operation:?} may not target scope {scope:?} — \
                     remember/forget may only write scope \"flow\"; scopes \"user\" and \
                     \"flows\" are read-only from a workflow"
                )
            );
        }
        let config = format!(
            "{{\"operation\": \"{operation}\", \"scope\": \"flow\", \"key\": \"k\", \"value\": 1}}"
        );
        assert!(reasons(NodeKind::Memory, &config).is_empty());
    }
}

#[test]
fn a_memory_operation_says_what_it_lacks() {
    assert_eq!(
        reasons(NodeKind::Memory, "{}"),
        vec!["memory node requires `operation` (recall|search|flavour|people|remember|forget)"]
    );
    assert_eq!(
        reasons(NodeKind::Memory, r#"{"operation": "recall"}"#),
        vec![
            "memory node operation \"recall\" requires `scope`",
            "memory node operation \"recall\" requires `query`",
        ]
    );
    assert_eq!(
        reasons(NodeKind::Memory, r#"{"operation": "remember", "scope": "nowhere"}"#),
        vec![
            "memory node has unknown scope \"nowhere\" (expected user|flow|flows)",
            "memory node operation \"remember\" requires `key`",
            "memory node operation \"remember\" requires `value`",
        ]
    );
    assert_eq!(
        reasons(NodeKind::Memory, r#"{"operation": "flavour"}"#),
        vec!["memory node operation \"flavour\" requires `flavour` (slug)"]
    );
    assert!(reasons(NodeKind::Memory, r#"{"operation": "people"}"#).is_empty());
}

#[test]
fn fan_out_settings_are_ones_the_node_can_obey() {
    assert!(reasons(NodeKind::ToolCall, r#"{"concurrency": "all"}"#).is_empty());
    assert!(reasons(NodeKind::ToolCall, r#"{"concurrency": 4}"#).is_empty());
    assert_eq!(
        reasons(NodeKind::ToolCall, r#"{"concurrency": -1}"#),
        vec!["`concurrency` must be a non-negative integer or \"all\", got -1"]
    );
    assert_eq!(
        reasons(NodeKind::Agent, r#"{"concurrency": 4}"#),
        vec!["`concurrency` has no effect without `execution: \"per_item\"` on a agent node"]
    );
    assert_eq!(
        reasons(NodeKind::Agent, r#"{"execution": "per_item", "on_item_error": "shrug"}"#),
        vec!["`on_item_error` must be \"collect\", \"fail_fast\", or \"skip\", got \"shrug\""]
    );
    assert_eq!(
        reasons(NodeKind::Merge, r#"{"execution": "once"}"#),
        vec![
            "`execution` is not supported on a merge node (only agent, tool_call, http_request, memory, and sub_workflow map over their input)"
        ]
    );
    assert_eq!(
        reasons(NodeKind::Agent, r#"{"execution": ["x"]}"#),
        vec!["unknown `execution` value [\"x\"] (expected \"once\" or \"per_item\")"]
    );
}

#[test]
fn a_sink_cannot_route_its_errors() {
    let found = reasons(NodeKind::Void, r#"{"on_error": "route"}"#);
    assert_eq!(found.len(), 1);
    assert!(found[0].starts_with("`void` is a terminal sink"), "{found:?}");
}

fn request() -> ApprovalRequest {
    ApprovalRequest {
        request_id: "run-1:review".into(),
        node_id: "review".into(),
        run_id: Some("run-1".into()),
        title: None,
        prompt: None,
        subject: ApprovalSubject { kind: "json".into(), value: Json::Null },
        assignees: vec![],
        metadata: Json::Null,
    }
}

#[test]
fn a_verdict_on_something_else_is_not_taken() {
    for resume in [
        r#"{"approved": ["other"]}"#,
        r#"{"rejected": ["other"]}"#,
        r#"{"approved": true, "node_id": "other"}"#,
        r#"{"approved": true, "request_id": "run-2:review"}"#,
    ] {
        assert!(decision_from_resume(&json(resume), &request()).is_none(), "{resume}");
    }
}

#[test]
fn silence_can_count_as_a_rejection() {
    let run = |on_reject: &str| {
        let config = format!(
            "{{\"wait_mode\": \"poll\", \"max_polls\": 1, \"on_timeout\": \"reject\", \"on_reject\": \"{on_reject}\"}}"
        );
        let review = node("review", NodeKind::Approval, &config);
        let ctx = NodeContext {
            node: &review,
            input: &vec![Item::new(json("7"))],
            run: &json(r#"{"run_id": "r"}"#),
            nodes: &json(r#"{"review": {"polls": 1}}"#),
            lane: None,
            resume: None,
            step: 3,
        };
        match ApprovalNode.execute(&ctx, &json(&config), vec![], Some(ApprovalOutcome::Pending)) {
            ApprovalStep::Finish { withdraw, result } => {
                assert_eq!(withdraw.expect("withdrawn").reason, "approval node timed out");
                result
            },
            other => panic!("expected a result, got {other:?}"),
        }
    };
    let routed = run("route").expect("routed");
    assert_eq!(routed.port.as_deref(), Some("rejected"));
    assert_eq!(routed.items[0].json.text_at("comment"), Some("no decision after 1 polls"));
    assert_eq!(routed.items[0].json.at("input"), json("7"));
    assert!(run("drop").expect("dropped").items.is_empty());
    let EngineError::Capability(text) = run("error").expect_err("failed");
    assert!(text.contains("fails the node"), "{text}");
}

fn verdict(advanced: bool) -> Verdict {
    Verdict {
        satisfied: false,
        blocker: Blocker::GoalNotMet,
        gap: "not yet".into(),
        attributed_to: String::new(),
        evidence: String::new(),
        advanced,
    }
}

#[test]
fn progress_clears_a_stall_that_was_held() {
    let goal = Goal::new("g");
    let approach = Approach::Variant { parent_id: "weekly".into(), why: "repaired".into() };
    let mut held = new_episode("ep", &goal, "t0");
    held.stalled = 1;
    let closing = close(
        &goal,
        "ep",
        2,
        &approach,
        &verdict(true),
        &Budget::default(),
        Some(held.clone()),
        "t1",
    );
    assert_eq!(closing.stalled, 0);
    assert_eq!(closing.next, Next::Retry);
    assert_eq!(closing.row.approach_sig, "variant:weekly");
    assert_eq!(closing.scored.as_deref(), Some("weekly"));
    let closing =
        close(&goal, "ep", 2, &approach, &verdict(false), &Budget::default(), Some(held), "t1");
    assert_eq!(closing.stalled, 2);
    assert!(matches!(closing.record.status, EpisodeStatus::StoodDown(_)));
}

#[test]
fn helped_never_passes_applied() {
    let mut ledger = MemoryLedger::new();
    for helped in [true, true, false, true] {
        ledger.score_workflow("", "w", helped);
        let score = ledger.workflow_score("", "w");
        assert!(score.helped <= score.applied);
    }
    let score = ledger.workflow_score("", "w");
    assert_eq!((score.applied, score.helped), (4, 3));
}

#[test]
fn a_ledger_that_cannot_be_read_says_so_to_intake() {
    assert_eq!(
        IntakeError::Ledger(LedgerError::Backend("down".into())).message(),
        "ledger: ledger backend: down"
    );
}

#[test]
fn every_kind_has_one_contract() {
    let contracts = all_contracts(vec![]);
    let mut kinds: Vec<&str> = contracts.iter().map(|c| c.kind.as_str()).collect();
    let count = kinds.len();
    kinds.sort();
    kinds.dedup();
    assert_eq!(kinds.len(), count);
    assert!(kinds.contains(&kind_name(&NodeKind::Scatter)));
    assert_eq!(contract_scatter().kind, "scatter");
    assert_eq!(contract_gather().kind, "gather");
    let field = ConfigField::required("mode", "string", "how").with_enum(&["a", "b"]);
    assert!(field.required);
    assert_eq!(field.enum_values, Some(vec!["a".to_string(), "b".to_string()]));
    assert!(!ConfigField::optional("x", "string", "").required);
}

#[test]
fn tiers_have_names() {
    assert_eq!(Tier::Select.as_str(), "select");
    assert_eq!(Tier::Author.as_str(), "author");
    assert_eq!(Tier::Judge.as_str(), "judge");
}

#[test]
fn texts_are_taken_apart_and_put_together() {
    assert_eq!(decimal_text(0), "0");
    assert_eq!(decimal_text(u64::MAX), "18446744073709551615");
    assert_eq!(padded_text(7, 3), "007");
    assert_eq!(padded_text(1234, 3), "1234");
    assert_eq!(trim("  a b\n"), "a b");
    assert_eq!(split_words(" a  b "), vec!["a".to_string(), "b".to_string()]);
    assert_eq!(join(&vec!["a".into(), "b".into()], ", "), "a, b");
    assert_eq!(cut_at("a..b", '.'), vec!["a".to_string(), String::new(), "b".to_string()]);
    assert!(holds_text("haystack", "sta"));
    assert!(!holds_text("haystack", "stc"));
}
