//! Splitting work into lanes, and checking graphs.
use tinyflows::data::Item;
use tinyflows::error::ValidationError;
use tinyflows::json::Json;
use tinyflows::json_text::parse;
use tinyflows::model::agent::{AgentDefinition, ContextSource, ContextSourceKind, ToolGrant};
use tinyflows::model::graph::{
    is_valid_input_name, Edge, InputType, Node, NodeKind, WorkflowGraph, WorkflowInput,
};
use tinyflows::nodes::scatter::{split, split_path, ScatterNode, MAX_LANES};
use tinyflows::nodes::{
    execution_mode, expr_scope, ExecutionMode, NodeContext, NodeControl, NodeOutput, TriggerNode,
};
use tinyflows::validate::{validate, validate_all};

fn json(text: &str) -> Json {
    parse(text).expect("valid JSON")
}

fn items(n: usize) -> Vec<Item> {
    (0..n).map(|i| Item::new(json(&format!("{{ \"i\": {i} }}")))).collect()
}

fn node_with(id: &str, kind: NodeKind, config: Json) -> Node {
    Node { id: id.into(), kind, type_version: 1, name: id.into(), config, position: None }
}

fn node(id: &str, kind: NodeKind) -> Node {
    node_with(id, kind, Json::Null)
}

fn edge(from: &str, port: &str, to: &str) -> Edge {
    Edge {
        from_node: from.into(),
        from_port: port.into(),
        to_node: to.into(),
        to_port: "main".into(),
    }
}

fn context<'a>(
    node: &'a Node,
    input: &'a Vec<Item>,
    run: &'a Json,
    nodes: &'a Json,
) -> NodeContext<'a> {
    NodeContext { node, input, run, nodes, lane: None, resume: None, step: 0 }
}

#[test]
fn without_a_lane_count_every_item_gets_its_own_lane() {
    let lanes = split(&items(4), None);
    assert_eq!(lanes.len(), 4);
    assert!(lanes.iter().all(|lane| lane.len() == 1));
}

#[test]
fn a_lane_count_chunks_the_input_and_preserves_order() {
    let lanes = split(&items(7), Some(3));
    assert_eq!(lanes.len(), 3, "at most the requested number of lanes");
    let flattened: Vec<u64> =
        lanes.iter().flatten().filter_map(|item| item.json.at("i").as_u64()).collect();
    assert_eq!(flattened, (0..7).collect::<Vec<u64>>(), "chunking must not reorder the work");
}

/// Asking for more lanes than there are items yields one lane each, not a pile
/// of empty lanes a gather would wait on forever.
#[test]
fn more_lanes_than_items_yields_one_lane_per_item() {
    let lanes = split(&items(2), Some(9));
    assert_eq!(lanes.len(), 2);
}

#[test]
fn an_empty_input_opens_no_lanes() {
    assert!(split(&[], None).is_empty());
    assert!(split(&[], Some(4)).is_empty());
}

#[test]
fn the_lane_count_is_clamped_to_the_ceiling() {
    let lanes = split(&items(MAX_LANES + 50), Some(MAX_LANES + 50));
    assert!(lanes.len() <= MAX_LANES, "opened {} lanes, above the ceiling", lanes.len());
}

#[test]
fn a_scatter_hands_on_its_lanes_and_their_number() {
    let input = items(5);
    let n = node_with("s", NodeKind::Scatter, json(r#"{ "lanes": 2 }"#));
    let out = ScatterNode.execute(&context(&n, &input, &Json::Null, &Json::Null)).expect("runs");
    assert_eq!(out.meta, Some(json(r#"{ "lane_count": 2 }"#)));
    match out.control {
        Some(NodeControl::Scatter { lanes }) => {
            assert_eq!(lanes.iter().map(|l| l.len()).collect::<Vec<_>>(), vec![3, 2]);
        },
        other => panic!("expected lanes, got {other:?}"),
    }
}

#[test]
fn a_scatter_splits_the_rows_at_its_path() {
    let input = vec![Item::new(json(r#"{ "data": { "rows": [1, 2, 3] } }"#))];
    let n = node_with("s", NodeKind::Scatter, json(r#"{ "path": "data.rows" }"#));
    let out = ScatterNode.execute(&context(&n, &input, &Json::Null, &Json::Null)).expect("runs");
    match out.control {
        Some(NodeControl::Scatter { lanes }) => {
            assert_eq!(lanes.len(), 3);
            assert_eq!(lanes[2][0].json, json("3"));
        },
        other => panic!("expected lanes, got {other:?}"),
    }
    assert_eq!(split_path("data.rows"), vec!["data".to_string(), "rows".to_string()]);
}

#[test]
fn expr_scope_exposes_completed_nodes_keyed_by_id() {
    let n = node("n", NodeKind::Transform);
    let input = vec![Item::new(json(r#"{ "in": 1 }"#))];
    // Run-state shape: serialized items under each completed node's slot.
    let nodes_state = json(
        r#"{
            "a": { "items": [
                { "json": { "x": 42 } },
                { "json": { "x": 43 }, "paired_item": 0 }
            ] },
            "b": { "items": [], "port": "true" },
            "broken": { "no_items": true }
        }"#,
    );
    let scope = expr_scope(&context(&n, &input, &Json::Null, &nodes_state));
    assert_eq!(scope.at("item"), json(r#"{ "in": 1 }"#));
    assert_eq!(scope.at("items"), json(r#"[{ "in": 1 }]"#));
    // `nodes.<id>` projects each slot's payloads.
    assert_eq!(scope.at("nodes").at("a").at("item"), json(r#"{ "x": 42 }"#));
    assert_eq!(scope.at("nodes").at("a").at("items"), json(r#"[{ "x": 42 }, { "x": 43 }]"#));
    // An empty slot yields a null `item` and empty `items`.
    assert_eq!(scope.at("nodes").at("b").at("item"), Json::Null);
    assert_eq!(scope.at("nodes").at("b").at("items"), json("[]"));
    // A slot without an `items` array is skipped.
    assert!(scope.at("nodes").get("broken").is_none());
}

#[test]
fn expr_scope_with_null_nodes_state_is_empty_map() {
    let n = node("n", NodeKind::Transform);
    let input = Vec::new();
    let scope = expr_scope(&context(&n, &input, &Json::Null, &Json::Null));
    assert_eq!(scope.at("nodes"), json("{}"));
}

#[test]
fn trigger_executor_passes_input_through() {
    let n = node("n", NodeKind::Trigger);
    let input = || vec![Item::new(json(r#"{ "a": 1 }"#)), Item::new(json(r#"{ "b": 2 }"#))];
    let given = input();
    let out =
        TriggerNode.execute(&context(&n, &given, &Json::Null, &Json::Null)).expect("execute");
    assert_eq!(out.items, input());
    assert_eq!(out.port, None);
}

#[test]
fn node_output_constructors_have_expected_shapes() {
    let items = || vec![Item::new(json(r#"{ "a": 1 }"#))];

    let main = NodeOutput::main(items());
    assert_eq!(main.port, None);
    assert_eq!(main.items, items());

    let routed = NodeOutput::routed(items(), "true");
    assert_eq!(routed.port.as_deref(), Some("true"));
    assert_eq!(routed.items, items());

    let empty = NodeOutput::empty();
    assert!(empty.items.is_empty());
    assert_eq!(empty.port, None);
}

#[test]
fn an_execution_mode_is_read_from_the_configuration() {
    let per_item = json(r#"{ "execution": "per_item" }"#);
    assert_eq!(execution_mode(&per_item, ExecutionMode::Once), ExecutionMode::PerItem);
    assert_eq!(execution_mode(&json("{}"), ExecutionMode::PerItem), ExecutionMode::PerItem);
    let once = json(r#"{ "execution": "once" }"#);
    assert_eq!(execution_mode(&once, ExecutionMode::PerItem), ExecutionMode::Once);
}

#[test]
fn duplicate_id_is_reported_before_trigger_checks() {
    // Two agents sharing an id and no trigger: the duplicate-id check runs
    // first, so that is the error surfaced.
    let graph = WorkflowGraph {
        nodes: vec![node("dup", NodeKind::Agent), node("dup", NodeKind::Agent)],
        ..Default::default()
    };
    assert_eq!(validate(&graph), Err(ValidationError::DuplicateNodeId("dup".to_string())));
}

#[test]
fn validate_all_is_empty_for_a_valid_graph() {
    let graph = WorkflowGraph {
        nodes: vec![node("t", NodeKind::Trigger), node("a", NodeKind::Agent)],
        edges: vec![edge("t", "main", "a")],
        ..Default::default()
    };
    assert!(validate_all(&graph).is_empty());
}

#[test]
fn validate_all_first_element_matches_validate() {
    let graph = WorkflowGraph {
        nodes: vec![node("dup", NodeKind::Agent), node("dup", NodeKind::Agent)],
        ..Default::default()
    };
    assert_eq!(validate_all(&graph).into_iter().next(), validate(&graph).err());
}

#[test]
fn validate_all_accumulates_independent_errors() {
    // No trigger, a duplicate node id, a dangling edge, an unknown on_error
    // value, and a mis-wired condition: one pass surfaces all of them.
    let graph = WorkflowGraph {
        nodes: vec![
            node("dup", NodeKind::Agent),
            node("dup", NodeKind::Agent),
            node("gate", NodeKind::Condition),
            node_with("x", NodeKind::ToolCall, json(r#"{ "on_error": "explode" }"#)),
        ],
        edges: vec![edge("gate", "maybe", "ghost")],
        ..Default::default()
    };
    let errors = validate_all(&graph);
    assert!(
        errors.contains(&ValidationError::DuplicateNodeId("dup".to_string())),
        "missing duplicate-id error in {errors:?}"
    );
    assert!(
        errors.contains(&ValidationError::MissingTrigger),
        "missing trigger error in {errors:?}"
    );
    assert!(
        errors.contains(&ValidationError::UnknownNode("ghost".to_string())),
        "missing unknown-node error in {errors:?}"
    );
    assert!(
        errors.contains(&ValidationError::InvalidOnError {
            node: "x".to_string(),
            value: "explode".to_string(),
        }),
        "missing invalid-on_error error in {errors:?}"
    );
    assert!(
        errors.contains(&ValidationError::InvalidConditionRouting {
            node: "gate".to_string(),
            from_port: "maybe".to_string(),
        }),
        "missing condition-routing error in {errors:?}"
    );
    // Five distinct problems, five errors.
    assert!(errors.len() >= 5, "expected >=5 accumulated errors, got {errors:?}");
}

#[test]
fn validate_all_reports_every_duplicate_and_every_dangling_edge() {
    let graph = WorkflowGraph {
        nodes: vec![node("t", NodeKind::Trigger)],
        edges: vec![edge("t", "main", "ghost1"), edge("t", "main", "ghost2")],
        ..Default::default()
    };
    let errors = validate_all(&graph);
    assert!(errors.contains(&ValidationError::UnknownNode("ghost1".to_string())));
    assert!(errors.contains(&ValidationError::UnknownNode("ghost2".to_string())));
}

#[test]
fn validation_error_code_and_node_id_accessors() {
    assert_eq!(ValidationError::MissingTrigger.code(), "missing_trigger");
    assert_eq!(ValidationError::MissingTrigger.node_id(), None);
    assert_eq!(ValidationError::UnknownNode("ghost".to_string()).code(), "unknown_node");
    assert_eq!(ValidationError::UnknownNode("ghost".to_string()).node_id(), Some("ghost"));
    assert_eq!(
        ValidationError::InvalidConditionRouting {
            node: "gate".to_string(),
            from_port: "main".to_string(),
        }
        .node_id(),
        Some("gate")
    );
    assert_eq!(ValidationError::MultipleTriggers(vec!["a".to_string()]).node_id(), None);
}

/// The errors of a trigger wired to one node.
fn errors_of(kind: NodeKind, config: &str) -> Vec<ValidationError> {
    validate_all(&WorkflowGraph {
        nodes: vec![node("t", NodeKind::Trigger), node_with("n", kind, json(config))],
        edges: vec![edge("t", "main", "n")],
        ..Default::default()
    })
}

#[test]
fn more_than_one_trigger_is_reported_with_every_one() {
    let graph = WorkflowGraph {
        nodes: vec![node("a", NodeKind::Trigger), node("b", NodeKind::Trigger)],
        ..Default::default()
    };
    assert_eq!(
        validate(&graph),
        Err(ValidationError::MultipleTriggers(vec!["a".into(), "b".into()]))
    );
}

#[test]
fn a_repeated_edge_is_reported() {
    let graph = WorkflowGraph {
        nodes: vec![node("t", NodeKind::Trigger), node("a", NodeKind::Agent)],
        edges: vec![edge("t", "main", "a"), edge("t", "main", "a")],
        ..Default::default()
    };
    assert_eq!(
        validate_all(&graph),
        vec![ValidationError::DuplicateEdge {
            from_node: "t".into(),
            from_port: "main".into(),
            to_node: "a".into(),
            to_port: "main".into(),
        }]
    );
}

#[test]
fn an_error_route_needs_an_edge() {
    assert_eq!(
        errors_of(NodeKind::Agent, r#"{ "on_error": "route" }"#),
        vec![ValidationError::MissingErrorRoute("n".into())]
    );
    assert!(errors_of(NodeKind::Agent, r#"{ "on_error": "continue" }"#).is_empty());
}

#[test]
fn a_configuration_that_cannot_work_is_reported() {
    for (kind, config) in [
        (NodeKind::SubWorkflow, "{}"),
        (NodeKind::Memory, r#"{ "operation": "nonsense" }"#),
        (NodeKind::Dedup, r#"{ "scope": 3 }"#),
        (NodeKind::Agent, r#"{ "execution": "sometimes" }"#),
    ] {
        let errors = errors_of(kind, config);
        assert!(
            errors.iter().any(|e| matches!(
                e,
                ValidationError::InvalidNodeConfig { node, .. } if node == "n"
            )),
            "{kind:?} {config}: {errors:?}"
        );
    }
}

fn input(name: &str, ty: InputType, required: bool, default: Option<Json>) -> WorkflowInput {
    WorkflowInput { name: name.into(), ty, required, default, description: None }
}

#[test]
fn declared_inputs_are_checked() {
    let graph = WorkflowGraph {
        nodes: vec![node("t", NodeKind::Trigger)],
        inputs: vec![
            input("repo", InputType::String, false, Some(json("3"))),
            input("repo", InputType::String, false, None),
            input("not a name", InputType::String, false, None),
            input("both", InputType::String, true, Some(json("\"x\""))),
        ],
        ..Default::default()
    };
    let errors = validate_all(&graph);
    assert!(errors.contains(&ValidationError::InputDefaultTypeMismatch {
        name: "repo".into(),
        expected: "string",
    }));
    assert!(errors.contains(&ValidationError::DuplicateInputName("repo".into())));
    assert!(errors.contains(&ValidationError::InvalidInputName("not a name".into())));
    assert!(errors.contains(&ValidationError::RequiredInputWithDefault("both".into())));
    assert_eq!(errors.len(), 4, "{errors:?}");
    assert!(is_valid_input_name("repo_1"));
    assert!(!is_valid_input_name(""));
}

#[test]
fn a_problem_says_where_it_stands() {
    let error = ValidationError::InvalidNodeConfig { node: "n".into(), reason: "why".into() };
    assert_eq!(error.message(), "invalid_node_config at node n: why");
    assert_eq!(ValidationError::MissingTrigger.message(), "missing_trigger");
}

fn wired(nodes: Vec<Node>, edges: &[(&str, &str)]) -> WorkflowGraph {
    let mut all = vec![node("t", NodeKind::Trigger)];
    all.extend(nodes);
    WorkflowGraph {
        nodes: all,
        edges: edges.iter().map(|(from, to)| edge(from, "main", to)).collect(),
        ..WorkflowGraph::default()
    }
}

fn problems(graph: &WorkflowGraph) -> Vec<(String, String)> {
    validate_all(graph)
        .into_iter()
        .map(|error| match error {
            ValidationError::InvalidNodeConfig { node, reason } => (node, reason),
            other => panic!("unexpected {other:?}"),
        })
        .collect()
}

#[test]
fn lanes_that_are_collected_are_in_order() {
    // Two regions, one behind the other, with a loop between them.
    let graph = wired(
        vec![
            node("fan", NodeKind::Scatter),
            node("work", NodeKind::Transform),
            node("collect", NodeKind::Gather),
            node("refine", NodeKind::Loop),
            node("again", NodeKind::Scatter),
            node("finish", NodeKind::Transform),
            node("done", NodeKind::Gather),
        ],
        &[
            ("t", "fan"),
            ("fan", "work"),
            ("work", "collect"),
            ("collect", "refine"),
            ("refine", "again"),
            ("again", "finish"),
            ("finish", "done"),
        ],
    );
    assert_eq!(problems(&graph), []);
}

#[test]
fn a_scatter_must_reach_a_gather() {
    let graph = wired(
        vec![node("fan", NodeKind::Scatter), node("work", NodeKind::Transform)],
        &[("t", "fan"), ("fan", "work")],
    );
    assert_eq!(
        problems(&graph),
        [(
            "fan".to_string(),
            "`scatter` must reach a `gather`, which collects its lanes".to_string()
        )]
    );
}

#[test]
fn a_lane_may_not_end_before_its_gather() {
    let graph = wired(
        vec![
            node("fan", NodeKind::Scatter),
            node("work", NodeKind::Transform),
            node("aside", NodeKind::Transform),
            node("collect", NodeKind::Gather),
        ],
        &[("t", "fan"), ("fan", "work"), ("work", "aside"), ("work", "collect")],
    );
    assert_eq!(
        problems(&graph),
        [(
            "aside".to_string(),
            "no path leads from here to the `gather` that collects the lanes of scatter \"fan\""
                .to_string()
        )]
    );
}

#[test]
fn a_lane_holds_no_scatter_no_loop_and_nothing_to_approve() {
    let graph = wired(
        vec![
            node("fan", NodeKind::Scatter),
            node("inner", NodeKind::Scatter),
            node("head", NodeKind::Loop),
            node_with("held", NodeKind::Transform, json(r#"{ "requires_approval": true }"#)),
            node_with("free", NodeKind::Transform, json(r#"{ "requires_approval": false }"#)),
            node("collect", NodeKind::Gather),
        ],
        &[
            ("t", "fan"),
            ("fan", "inner"),
            ("inner", "collect"),
            ("fan", "head"),
            ("head", "collect"),
            ("fan", "held"),
            ("held", "collect"),
            ("fan", "free"),
            ("free", "collect"),
        ],
    );
    let said = |what: &str| format!("{what} is not supported inside a lane of scatter \"fan\"");
    assert_eq!(
        problems(&graph),
        [
            ("inner".to_string(), said("a nested `scatter`")),
            ("head".to_string(), said("a `loop` head")),
            ("held".to_string(), said("`requires_approval`")),
        ]
    );
    // A scatter that its own lanes lead back to stands in them.
    let round = wired(
        vec![
            node("fan", NodeKind::Scatter),
            node("work", NodeKind::Transform),
            node("collect", NodeKind::Gather),
        ],
        &[("t", "fan"), ("fan", "work"), ("work", "fan"), ("work", "collect")],
    );
    assert_eq!(problems(&round), [("fan".to_string(), said("a nested `scatter`"))]);
}

#[test]
fn nothing_leaves_a_sink() {
    let graph = wired(
        vec![node("sink", NodeKind::Void), node("after", NodeKind::Transform)],
        &[("t", "sink"), ("sink", "after")],
    );
    assert_eq!(
        problems(&graph),
        [("sink".to_string(), "`void` is a terminal sink, so no edge may leave it".to_string())]
    );
    let graph = wired(vec![node("sink", NodeKind::Void)], &[("t", "sink")]);
    assert_eq!(problems(&graph), []);
}

#[test]
fn written_assignees_have_to_be_somebody() {
    let of = |config: &str| {
        problems(&wired(
            vec![node_with("ask", NodeKind::Approval, json(config))],
            &[("t", "ask")],
        ))
    };
    assert_eq!(of("{}"), []);
    assert_eq!(of(r#"{ "assignees": ["ada"] }"#), []);
    assert_eq!(of(r#"{ "assignees": "=item.people" }"#), []);
    assert_eq!(
        of(r#"{ "assignees": "ada" }"#),
        [(
            "ask".to_string(),
            "approval node `assignees` must be an array of strings, got \"ada\"".to_string()
        )]
    );
    assert_eq!(
        of(r#"{ "assignees": [] }"#),
        [(
            "ask".to_string(),
            "approval node has an empty `assignees`; a review with nobody assigned can never be resolved"
                .to_string()
        )]
    );
    assert_eq!(of(r#"{ "assignees": null }"#).len(), 1);
}

#[test]
fn an_agent_node_writes_out_what_it_acts_as_and_may_reach() {
    let of = |config: &str| {
        problems(&wired(vec![node_with("ask", NodeKind::Agent, json(config))], &[("t", "ask")]))
    };
    assert_eq!(
        of(r#"{
            "prompt": "=item.text",
            "agent_ref": "triager",
            "tools": [{ "slug": "github.*", "connection_ref": "acct" }],
            "context": [{ "kind": "memory", "scope": "user", "query": "=item.q" },
                        { "kind": "text", "text": "=item.text" }]
        }"#),
        []
    );
    let said = |what: &str, text: &str| {
        (
            "ask".to_string(),
            format!("`{what}` must be a literal, got the expression {text:?}"),
        )
    };
    assert_eq!(
        of(r#"{
            "agent_ref": "=item.agent",
            "tools": [{ "slug": "=item.tool", "connection_ref": "=item.account" }],
            "context": [{ "kind": "memory", "scope": "=item.scope", "query": "q" }]
        }"#),
        [
            said("agent_ref", "=item.agent"),
            said("tools.slug", "=item.tool"),
            said("tools.connection_ref", "=item.account"),
            said("context.scope", "=item.scope"),
        ]
    );
}

#[test]
fn an_agent_definition_writes_out_what_it_may_reach() {
    let mut graph = wired(vec![], &[]);
    let mut agent = AgentDefinition::new("triager");
    agent.tools.push(ToolGrant::new("github.search"));
    agent.context.push(ContextSource::new(ContextSourceKind::Memory {
        scope: "flow".into(),
        query: "=item.q".into(),
        limit: None,
    }));
    graph.agents.push(agent);
    assert!(validate_all(&graph).is_empty());
    graph.agents[0].tools.push(ToolGrant {
        slug: "=item.tool".into(),
        connection_ref: Some("=item.account".into()),
    });
    graph.agents[0].context.push(ContextSource::new(ContextSourceKind::Memory {
        scope: "=item.scope".into(),
        query: "q".into(),
        limit: None,
    }));
    let said = |what: &str, text: &str| ValidationError::InvalidAgentDefinition {
        agent: "triager".into(),
        reason: format!("`{what}` must be a literal, got the expression {text:?}"),
    };
    let found = validate_all(&graph);
    assert_eq!(
        found,
        [
            said("tools.slug", "=item.tool"),
            said("tools.connection_ref", "=item.account"),
            said("context.scope", "=item.scope"),
        ]
    );
    assert_eq!(found[0].code(), "invalid_agent_definition");
    assert_eq!(found[0].node_id(), None);
    assert_eq!(
        found[0].message(),
        "invalid_agent_definition of agent triager: `tools.slug` must be a literal, got the expression \"=item.tool\""
    );
}
