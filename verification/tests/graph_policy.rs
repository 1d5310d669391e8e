//! What a graph is allowed to do unattended.
use tinyflows::catalog::graph_policy::{
    enforce_side_effect_approval, graph_has_actionable_nodes, graph_has_outbound_side_effect,
    trigger_is_automatic, TriggerKind,
};
use tinyflows::json::Json;
use tinyflows::json_text::parse;
use tinyflows::model::graph::{Edge, Node, NodeKind, WorkflowGraph};

fn json(text: &str) -> Json {
    parse(text).expect("valid JSON")
}

fn node(id: &str, kind: NodeKind, config: Json) -> Node {
    Node {
        id: id.into(),
        kind,
        type_version: 1,
        name: id.to_uppercase(),
        config,
        position: None,
    }
}

fn edge(from: &str, to: &str) -> Edge {
    Edge {
        from_node: from.into(),
        from_port: "main".into(),
        to_node: to.into(),
        to_port: "main".into(),
    }
}

/// A graph with one `trigger` node carrying `config`, plus one node of `kind`
/// wired to it.
fn graph(trigger_config: &str, kind: Option<NodeKind>) -> WorkflowGraph {
    let mut g = WorkflowGraph {
        nodes: vec![node("t", NodeKind::Trigger, json(trigger_config))],
        ..WorkflowGraph::default()
    };
    if let Some(kind) = kind {
        g.nodes.push(node("n", kind, json("{}")));
        g.edges = vec![edge("t", "n")];
    }
    g
}

#[test]
fn a_schedule_trigger_is_automatic_and_a_manual_one_is_not() {
    assert!(trigger_is_automatic(&graph(r#"{ "trigger_kind": "schedule" }"#, None)));
    assert!(!trigger_is_automatic(&graph(r#"{ "trigger_kind": "manual" }"#, None)));
}

/// A graph with no discriminator never fires by itself, so it is not automatic.
#[test]
fn a_trigger_without_a_kind_is_not_automatic() {
    assert!(!trigger_is_automatic(&graph("{}", None)));
}

/// A webhook fires unattended the moment a host wires it, so it counts even
/// where no host dispatches one yet.
#[test]
fn a_webhook_trigger_counts_as_automatic_before_any_host_dispatches_one() {
    assert!(trigger_is_automatic(&graph(r#"{ "trigger_kind": "webhook" }"#, None)));
}

#[test]
fn the_four_acting_node_kinds_are_outbound_side_effects() {
    for kind in [NodeKind::ToolCall, NodeKind::HttpRequest, NodeKind::Code, NodeKind::Shell] {
        let label = format!("{kind:?}");
        assert!(
            graph_has_outbound_side_effect(&graph("{}", Some(kind))),
            "{label} must count as an outbound side effect"
        );
    }
    assert!(!graph_has_outbound_side_effect(&graph("{}", Some(NodeKind::Agent))));
}

/// The override is one-way: a side effect forces approval on, and a caller who
/// already asked for approval is not reported as having been forced.
#[test]
fn approval_is_forced_on_only_when_the_caller_asked_for_less() {
    let acting = graph("{}", Some(NodeKind::HttpRequest));
    assert_eq!(enforce_side_effect_approval(&acting, false), (true, true));
    assert_eq!(enforce_side_effect_approval(&acting, true), (true, false));

    let readonly = graph("{}", Some(NodeKind::Agent));
    assert_eq!(enforce_side_effect_approval(&readonly, false), (false, false));
    assert_eq!(enforce_side_effect_approval(&readonly, true), (true, false));
}

/// A bare trigger has nothing to do: such a graph otherwise completes
/// successfully having run nothing.
#[test]
fn a_trigger_only_graph_has_nothing_to_do() {
    assert!(!graph_has_actionable_nodes(&graph("{}", None)));
    assert!(graph_has_actionable_nodes(&graph("{}", Some(NodeKind::Agent))));
}

/// Reachability, not "an edge exists somewhere": a component wired only to
/// itself never runs.
#[test]
fn nodes_unreachable_from_the_trigger_do_not_count_as_actionable() {
    let mut g = graph("{}", None);
    g.nodes.push(node("a", NodeKind::Agent, json("{}")));
    g.nodes.push(node("b", NodeKind::Agent, json("{}")));
    g.edges = vec![edge("a", "b")];
    assert!(!graph_has_actionable_nodes(&g));
}

#[test]
fn a_chain_through_inert_nodes_is_followed() {
    let mut g = graph("{}", Some(NodeKind::Agent));
    g.nodes.push(node("m", NodeKind::Merge, json("{}")));
    g.edges = vec![edge("t", "m"), edge("m", "n"), edge("n", "m")];
    assert!(graph_has_actionable_nodes(&g));
}

#[test]
fn trigger_kinds_are_read_by_name() {
    assert_eq!(TriggerKind::named("schedule"), Some(TriggerKind::Schedule));
    assert_eq!(TriggerKind::named("nonsense"), None);
    assert_eq!(TriggerKind::from_json(&json("\"manual\"")), Some(TriggerKind::Manual));
    assert_eq!(TriggerKind::from_json(&json("3")), None);
}
