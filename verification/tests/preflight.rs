//! Arguments that can never be resolved, found before a run.
use tinyflows::json_text::parse;
use tinyflows::json::Json;
use tinyflows::model::graph::{Edge, Node, NodeKind, WorkflowGraph};
use tinyflows::nodes::NullResolution;
use tinyflows::preflight::{
    explicit_nodes_ref, is_trigger_scoped_expression, judge_run,
    mock_opaque_tool_call_upstream_ref, validate_required_arg_resolvability, ObservedStep,
    SandboxRun,
};

fn json(text: &str) -> Json {
    parse(text).expect("valid JSON")
}

fn node(id: &str, kind: NodeKind, config: &str) -> Node {
    Node { id: id.into(), kind, type_version: 1, name: id.into(), config: json(config), position: None }
}

fn edge(from: &str, to: &str) -> Edge {
    Edge {
        from_node: from.into(),
        from_port: "main".into(),
        to_node: to.into(),
        to_port: "main".into(),
    }
}

/// A trigger, a tool call and another tool call, one after the other.
fn graph() -> WorkflowGraph {
    WorkflowGraph {
        nodes: vec![
            node("t", NodeKind::Trigger, "{}"),
            node("fetch", NodeKind::ToolCall, r#"{ "slug": "github.list" }"#),
            node("shape", NodeKind::Transform, "{}"),
            node("post", NodeKind::ToolCall, r#"{ "slug": "slack.post" }"#),
        ],
        edges: vec![edge("t", "fetch"), edge("fetch", "shape"), edge("shape", "post")],
        ..WorkflowGraph::default()
    }
}

fn step(node_id: &str, location: &str, expression: &str) -> ObservedStep {
    ObservedStep {
        node_id: node_id.into(),
        diagnostics: vec![NullResolution {
            location: location.into(),
            expression: expression.into(),
        }],
    }
}

#[test]
fn a_node_is_named_by_the_dotted_or_the_bracket_form() {
    assert_eq!(explicit_nodes_ref("=nodes.fetch.item").as_deref(), Some("fetch"));
    assert_eq!(explicit_nodes_ref("=.nodes[\"fetch\"].item").as_deref(), Some("fetch"));
    assert_eq!(explicit_nodes_ref("= nodes['fetch']").as_deref(), Some("fetch"));
    assert_eq!(explicit_nodes_ref("=item.a"), None);
    assert_eq!(explicit_nodes_ref("nodes.fetch"), None);
    assert_eq!(explicit_nodes_ref("=nodes"), None);
}

#[test]
fn an_expression_that_reads_the_trigger_is_told_apart() {
    let g = graph();
    assert!(is_trigger_scoped_expression("=run.trigger.x", &g, "post", Some("t")));
    assert!(is_trigger_scoped_expression("=nodes.t.item", &g, "post", Some("t")));
    assert!(is_trigger_scoped_expression("=item.x", &g, "fetch", Some("t")));
    assert!(!is_trigger_scoped_expression("=item.x", &g, "post", Some("t")));
    assert!(!is_trigger_scoped_expression("=nodes.fetch.item", &g, "post", Some("t")));
    assert!(!is_trigger_scoped_expression("=items_total", &g, "fetch", Some("t")));
}

#[test]
fn a_mocked_tool_call_upstream_is_opaque() {
    let g = graph();
    assert_eq!(
        mock_opaque_tool_call_upstream_ref("=nodes.fetch.item.json.title", &g, "post"),
        Some("fetch")
    );
    assert_eq!(mock_opaque_tool_call_upstream_ref("=nodes.shape.item", &g, "post"), None);
}

#[test]
fn an_argument_nothing_can_supply_is_reported() {
    let errors = validate_required_arg_resolvability(
        &graph(),
        Some(&[step("post", "args.channel", "=nodes.shape.item.channel")]),
    );
    assert_eq!(errors.len(), 1, "{errors:?}");
    assert!(errors[0].contains("post"), "{errors:?}");
}

#[test]
fn an_honest_null_is_not_reported() {
    // The sandbox's trigger is empty, and a mocked tool's output is opaque.
    let errors = validate_required_arg_resolvability(
        &graph(),
        Some(&[
            step("post", "args.channel", "=run.trigger.channel"),
            step("fetch", "args.repo", "=item.repo"),
            step("post", "args.text", "=nodes.fetch.item.json.title"),
        ]),
    );
    assert!(errors.is_empty(), "{errors:?}");
    assert!(validate_required_arg_resolvability(&graph(), Some(&[])).is_empty());
}

#[test]
fn a_graph_without_a_settled_run_is_not_rejected() {
    assert!(validate_required_arg_resolvability(&graph(), None).is_empty());
    for run in [SandboxRun::NotCompiled, SandboxRun::Failed, SandboxRun::TimedOut] {
        assert!(run.steps().is_none());
        assert!(judge_run(&graph(), &run).is_empty());
    }
    let settled =
        SandboxRun::Settled(vec![step("post", "args.channel", "=nodes.shape.item.channel")]);
    let direct = validate_required_arg_resolvability(&graph(), settled.steps());
    assert_eq!(direct.len(), 1);
    assert_eq!(judge_run(&graph(), &settled), direct);
}
