//! Importing n8n workflows.
use tinyflows::catalog::n8n::expr::{jq_field, translate_config, translate_expr};
use tinyflows::catalog::n8n::javascript::uses_n8n_code_globals;
use tinyflows::catalog::n8n::node_mapping::{
    map_code, map_condition, map_http_request, map_http_request_node, map_node, map_split_out,
    map_switch, trigger_config,
};
use tinyflows::catalog::n8n::workflow::{looks_like_n8n, map_n8n_workflow, output_port_name};
use tinyflows::json::{Json, Number};
use tinyflows::json_text::parse;
use tinyflows::model::graph::{NodeKind, Position};
use tinyflows::validate::validate;

fn json(text: &str) -> Json {
    parse(text).expect("valid JSON")
}

#[test]
fn looks_like_n8n_detects_connections_and_typed_nodes() {
    assert!(looks_like_n8n(&json(r#"{ "connections": {} }"#)));
    assert!(looks_like_n8n(&json(
        r#"{ "nodes": [{ "name": "x", "type": "n8n-nodes-base.httpRequest" }] }"#
    )));
    // A native graph is not mistaken for n8n.
    assert!(!looks_like_n8n(&json(
        r#"{ "nodes": [{ "id": "t", "kind": "trigger", "name": "start" }], "edges": [] }"#
    )));
}

#[test]
fn maps_if_node_to_condition_with_true_false_ports() {
    let wf = json(
        r#"{
        "name": "branch",
        "nodes": [
            { "id": "s", "name": "Schedule Trigger", "type": "n8n-nodes-base.scheduleTrigger", "position": [0, 0] },
            { "id": "c", "name": "IF", "type": "n8n-nodes-base.if", "position": [200, 0] },
            { "id": "a", "name": "Yes", "type": "n8n-nodes-base.httpRequest", "position": [400, -100] },
            { "id": "b", "name": "No", "type": "n8n-nodes-base.httpRequest", "position": [400, 100] }
        ],
        "connections": {
            "Schedule Trigger": { "main": [[{ "node": "IF", "type": "main", "index": 0 }]] },
            "IF": { "main": [
                [{ "node": "Yes", "type": "main", "index": 0 }],
                [{ "node": "No", "type": "main", "index": 0 }]
            ] }
        }
    }"#,
    );
    let result = map_n8n_workflow(&wf).expect("map");
    let g = &result.graph;
    assert_eq!(g.name, "branch");

    let cond = g.node("c").expect("condition node");
    assert_eq!(cond.kind, NodeKind::Condition);

    let trig = g.node("s").expect("trigger node");
    assert_eq!(trig.kind, NodeKind::Trigger);
    assert_eq!(trig.config.text_at("trigger_kind"), Some("schedule"));
    assert_eq!(
        trig.position,
        Some(Position { x: Number::PosInt(0), y: Number::PosInt(0) })
    );

    // The IF node's two outputs route to `true`/`false` ports.
    let true_edge =
        g.edges.iter().find(|e| e.from_node == "c" && e.to_node == "a").expect("true edge");
    assert_eq!(true_edge.from_port, "true");
    let false_edge =
        g.edges.iter().find(|e| e.from_node == "c" && e.to_node == "b").expect("false edge");
    assert_eq!(false_edge.from_port, "false");

    // Whole graph is structurally valid (exactly one trigger, real edges).
    validate(g).expect("valid graph");
}

#[test]
fn unmapped_type_becomes_annotated_placeholder_not_a_failure() {
    let wf = json(
        r#"{
        "name": "exotic",
        "nodes": [
            { "id": "t", "name": "Manual", "type": "n8n-nodes-base.manualTrigger" },
            { "id": "x", "name": "Airtable", "type": "n8n-nodes-base.airtable",
              "parameters": { "operation": "append", "table": "leads" } }
        ],
        "connections": {
            "Manual": { "main": [[{ "node": "Airtable", "type": "main", "index": 0 }]] }
        }
    }"#,
    );
    let result = map_n8n_workflow(&wf).expect("map");
    let node = result.graph.node("x").expect("placeholder node");
    assert_eq!(node.kind, NodeKind::Transform);
    assert_eq!(
        node.config.at("_n8n_import").text_at("original_type"),
        Some("n8n-nodes-base.airtable")
    );
    // Original parameters are preserved for editing.
    assert_eq!(node.config.at("parameters").text_at("table"), Some("leads"));
    // The unmapped type produced a warning.
    assert!(result.warnings.iter().any(|w| w.contains("airtable")));
    validate(&result.graph).expect("valid graph");
}

#[test]
fn synthesizes_manual_trigger_when_none_present() {
    let wf = json(
        r#"{
        "name": "no-trigger",
        "nodes": [
            { "id": "h", "name": "HTTP", "type": "n8n-nodes-base.httpRequest" }
        ],
        "connections": {}
    }"#,
    );
    let result = map_n8n_workflow(&wf).expect("map");
    let trigger = result
        .graph
        .nodes
        .iter()
        .find(|n| n.kind == NodeKind::Trigger)
        .expect("a trigger was synthesized");
    assert!(result.warnings.iter().any(|w| w.contains("manual trigger")));
    validate(&result.graph).expect("valid graph");

    // The synthesized trigger must be wired to the graph's actual entry point.
    assert!(
        result.graph.edges.iter().any(|e| e.from_node == trigger.id && e.to_node == "h"),
        "synthesized trigger must connect to the imported root node, got edges: {:?}",
        result.graph.edges
    );
}

#[test]
fn synthesized_trigger_id_avoids_colliding_with_an_existing_node() {
    // The n8n graph already has a (non-trigger) node literally id'd "trigger".
    let wf = json(
        r#"{
        "name": "id-collision",
        "nodes": [
            { "id": "trigger", "name": "HTTP", "type": "n8n-nodes-base.httpRequest" }
        ],
        "connections": {}
    }"#,
    );
    let result = map_n8n_workflow(&wf).expect("map");
    let ids: Vec<&str> = result.graph.nodes.iter().map(|n| n.id.as_str()).collect();
    // Both the original node and the synthesized trigger survive, under
    // distinct ids.
    assert_eq!(ids.len(), 2);
    assert!(ids.contains(&"trigger"));
    assert!(ids.iter().any(|id| *id != "trigger"));
    assert_eq!(result.graph.nodes.iter().filter(|n| n.kind == NodeKind::Trigger).count(), 1);
    validate(&result.graph).expect("valid graph");
}

#[test]
fn demotes_extra_triggers_to_placeholders() {
    let wf = json(
        r#"{
        "name": "two-triggers",
        "nodes": [
            { "id": "s", "name": "Schedule", "type": "n8n-nodes-base.scheduleTrigger" },
            { "id": "w", "name": "Webhook", "type": "n8n-nodes-base.webhook" }
        ],
        "connections": {}
    }"#,
    );
    let result = map_n8n_workflow(&wf).expect("map");
    assert_eq!(result.graph.nodes.iter().filter(|n| n.kind == NodeKind::Trigger).count(), 1);
    // The demoted trigger is now a placeholder transform.
    let demoted = result.graph.node("w").expect("webhook node");
    assert_eq!(demoted.kind, NodeKind::Transform);
    validate(&result.graph).expect("valid graph");
}

#[test]
fn translates_trivial_json_expression_to_jq() {
    // n8n's `$json` is the current input item, which the scope binds under
    // `item`.
    let mut warnings = Vec::new();
    assert_eq!(translate_expr("={{ $json.email }}", &mut warnings, "n"), "=.item.email");
    assert_eq!(translate_expr("={{ $json.user.name }}", &mut warnings, "n"), "=.item.user.name");
    // A bracket key with a space isn't a bare jq identifier.
    assert_eq!(
        translate_expr("={{ $json[\"first name\"] }}", &mut warnings, "n"),
        "=.item.\"first name\""
    );
    // `{{ $json }}` (no tail) must become `.item`, not the root.
    assert_eq!(translate_expr("={{ $json }}", &mut warnings, "n"), "=.item");
    assert!(warnings.is_empty());
}

#[test]
fn jq_field_quotes_non_bare_identifiers() {
    // Plain identifiers stay bare.
    assert_eq!(jq_field("foo"), "foo");
    assert_eq!(jq_field("foo_bar"), "foo_bar");
    // Spaces, punctuation, and digit-leading keys aren't bare jq identifiers.
    assert_eq!(jq_field("first name"), "\"first name\"");
    assert_eq!(jq_field("foo-bar"), "\"foo-bar\"");
    assert_eq!(jq_field("123key"), "\"123key\"");
}

#[test]
fn leaves_untranslatable_expression_raw_with_warning() {
    let mut warnings = Vec::new();
    let raw = "={{ $json.a + $json.b }}";
    assert_eq!(translate_expr(raw, &mut warnings, "Math"), raw);
    assert_eq!(warnings.len(), 1);
    assert!(warnings[0].contains("not automatically translated"));
}

#[test]
fn plain_string_is_not_treated_as_expression() {
    let mut warnings = Vec::new();
    assert_eq!(translate_expr("hello", &mut warnings, "n"), "hello");
    assert!(warnings.is_empty());
}

#[test]
fn http_request_maps_url_and_method() {
    let mut warnings = Vec::new();
    let cfg = map_http_request(
        &json(r#"{ "url": "https://api.example.com", "requestMethod": "POST" }"#),
        &mut warnings,
        "HTTP",
    );
    assert_eq!(cfg.text_at("url"), Some("https://api.example.com"));
    assert_eq!(cfg.text_at("method"), Some("POST"));
    // Expression in the url is translated in place.
    let cfg2 =
        map_http_request(&json(r#"{ "url": "={{ $json.endpoint }}" }"#), &mut warnings, "HTTP");
    assert_eq!(cfg2.text_at("url"), Some("=.item.endpoint"));
    assert_eq!(cfg2.text_at("method"), Some("GET"));
}

#[test]
fn code_node_pulls_source_and_language() {
    let mut warnings = Vec::new();
    let cfg = map_code(&json(r#"{ "jsCode": "return items;" }"#), &mut warnings, "Code");
    assert_eq!(cfg.text_at("source"), Some("return items;"));
    assert_eq!(cfg.text_at("language"), Some("javascript"));
}

#[test]
fn switch_ports_are_numeric_indices() {
    assert_eq!(output_port_name(Some(&NodeKind::Switch), 0), "0");
    assert_eq!(output_port_name(Some(&NodeKind::Switch), 2), "2");
    assert_eq!(output_port_name(Some(&NodeKind::Condition), 0), "true");
    assert_eq!(output_port_name(Some(&NodeKind::Condition), 1), "false");
    assert_eq!(output_port_name(Some(&NodeKind::Merge), 0), "main");
}

#[test]
fn missing_nodes_array_is_an_error() {
    let err = map_n8n_workflow(&json(r#"{ "name": "x" }"#)).unwrap_err();
    assert!(err.contains("nodes"));
}

#[test]
fn drops_connection_to_unknown_node_with_warning() {
    let wf = json(
        r#"{
        "name": "dangling",
        "nodes": [
            { "id": "t", "name": "Manual", "type": "n8n-nodes-base.manualTrigger" }
        ],
        "connections": {
            "Manual": { "main": [[{ "node": "Ghost", "type": "main", "index": 0 }]] }
        }
    }"#,
    );
    let result = map_n8n_workflow(&wf).expect("map");
    assert!(result.graph.edges.is_empty());
    assert!(result.warnings.iter().any(|w| w.contains("Ghost")));
}

#[test]
fn duplicate_node_name_collision_emits_a_warning() {
    // n8n's `connections` map is keyed by node name, not id. Two nodes sharing
    // the name "HTTP" mean the last one, "b", is the one connections reach.
    let wf = json(
        r#"{
        "name": "dup-names",
        "nodes": [
            { "id": "t", "name": "Manual", "type": "n8n-nodes-base.manualTrigger" },
            { "id": "a", "name": "HTTP", "type": "n8n-nodes-base.httpRequest",
              "parameters": { "url": "https://a.example.com" } },
            { "id": "b", "name": "HTTP", "type": "n8n-nodes-base.httpRequest",
              "parameters": { "url": "https://b.example.com" } }
        ],
        "connections": {
            "Manual": { "main": [[{ "node": "HTTP", "type": "main", "index": 0 }]] }
        }
    }"#,
    );
    let result = map_n8n_workflow(&wf).expect("map");

    // The collision itself is reported.
    let collision_warning =
        result.warnings.iter().find(|w| w.contains("named 'HTTP'")).unwrap_or_else(|| {
            panic!("expected a duplicate-name warning, got {:?}", result.warnings)
        });
    assert!(collision_warning.contains('a'));
    assert!(collision_warning.contains('b'));

    // Both original nodes still exist under their own ids.
    assert!(result.graph.node("a").is_some());
    assert!(result.graph.node("b").is_some());

    // The connection resolves onto exactly one target.
    assert_eq!(result.graph.edges.len(), 1);
    assert_eq!(result.graph.edges[0].to_node, "b");

    validate(&result.graph).expect("valid graph");
}

#[test]
fn if_node_with_untranslatable_conditions_warns_and_preserves_them() {
    let mut warnings = Vec::new();
    let cfg = map_condition(
        &json(
            r#"{
            "conditions": {
                "options": {},
                "conditions": [{ "leftValue": "={{ $json.status }}", "rightValue": "ok", "operator": { "operation": "equals" } }]
            }
        }"#,
        ),
        &mut warnings,
        "IF",
    );
    // No `field` could be derived; the original conditions are kept, and a
    // warning is raised.
    assert!(cfg.get("field").is_none());
    assert!(cfg.at("_n8n_import").at("conditions").as_object().is_some());
    assert!(warnings.iter().any(|w| w.contains("IF") && w.contains("conditions")));
}

#[test]
fn switch_node_with_untranslatable_rules_warns_and_preserves_them() {
    let mut warnings = Vec::new();
    let cfg = map_switch(
        &json(r#"{ "rules": { "values": [{ "conditions": {}, "outputKey": "a" }] } }"#),
        &mut warnings,
        "Switch",
    );
    assert!(cfg.get("field").is_none());
    assert!(cfg.get("expression").is_none());
    assert!(cfg.at("_n8n_import").at("rules").as_object().is_some());
    assert!(warnings.iter().any(|w| w.contains("Switch") && w.contains("rules")));
}

#[test]
fn split_out_maps_field_to_split_out_to_path() {
    let mut warnings = Vec::new();
    let cfg = map_split_out(
        &json(r#"{ "fieldToSplitOut": "data.items" }"#),
        &mut warnings,
        "Split",
    );
    assert_eq!(cfg.text_at("path"), Some("data.items"));
    assert!(cfg.get("fieldToSplitOut").is_none());
}

#[test]
fn item_lists_only_maps_to_split_out_for_the_split_out_operation() {
    let wf = json(
        r#"{
        "name": "item-lists",
        "nodes": [
            { "id": "t", "name": "Manual", "type": "n8n-nodes-base.manualTrigger" },
            { "id": "s", "name": "Split", "type": "n8n-nodes-base.itemLists",
              "parameters": { "operation": "splitOutItems", "fieldToSplitOut": "items" } },
            { "id": "a", "name": "Aggregate", "type": "n8n-nodes-base.itemLists",
              "parameters": { "operation": "aggregateItems" } }
        ],
        "connections": {
            "Manual": { "main": [[{ "node": "Split", "type": "main", "index": 0 }]] },
            "Split": { "main": [[{ "node": "Aggregate", "type": "main", "index": 0 }]] }
        }
    }"#,
    );
    let result = map_n8n_workflow(&wf).expect("map");
    assert_eq!(result.graph.node("s").expect("split node").kind, NodeKind::SplitOut);
    // Another operation falls through to the placeholder.
    assert_eq!(result.graph.node("a").expect("aggregate node").kind, NodeKind::Transform);
}

#[test]
fn code_node_with_n8n_globals_or_top_level_return_warns() {
    let mut warnings = Vec::new();
    map_code(&json(r#"{ "jsCode": "return items;" }"#), &mut warnings, "Code");
    assert!(warnings.iter().any(|w| w.contains("Code") && w.contains("n8n-only globals")));

    let mut clean_warnings = Vec::new();
    map_code(
        &json(r#"{ "jsCode": "const x = 1; module.exports = x;" }"#),
        &mut clean_warnings,
        "Clean",
    );
    assert!(
        !clean_warnings.iter().any(|w| w.contains("n8n-only globals")),
        "code with no n8n tell-tales should not warn: {clean_warnings:?}"
    );
}

#[test]
fn cron_node_maps_cron_expression_to_schedule() {
    let mut warnings = Vec::new();
    let cfg = trigger_config(
        "schedule",
        &json(r#"{ "cronExpression": "0 9 * * *" }"#),
        &mut warnings,
        "Cron",
    );
    assert_eq!(cfg.at("schedule"), json(r#"{ "kind": "cron", "expr": "0 9 * * *" }"#));
    assert!(!warnings.iter().any(|w| w.contains("could not be translated")));
}

#[test]
fn interval_node_maps_unit_and_value_to_every_ms() {
    let mut warnings = Vec::new();
    let cfg = trigger_config(
        "schedule",
        &json(r#"{ "unit": "minutes", "value": 15 }"#),
        &mut warnings,
        "Interval",
    );
    assert_eq!(cfg.at("schedule"), json(r#"{ "kind": "every", "every_ms": 900000.0 }"#));
    assert!(!warnings.iter().any(|w| w.contains("could not be translated")));
}

#[test]
fn schedule_trigger_maps_a_cron_expression_rule() {
    let mut warnings = Vec::new();
    let cfg = trigger_config(
        "schedule",
        &json(
            r#"{ "rule": { "interval": [{ "field": "cronExpression", "expression": "*/5 * * * *" }] } }"#,
        ),
        &mut warnings,
        "ScheduleTrigger",
    );
    assert_eq!(cfg.at("schedule"), json(r#"{ "kind": "cron", "expr": "*/5 * * * *" }"#));
    assert!(!warnings.iter().any(|w| w.contains("could not be translated")));
}

#[test]
fn schedule_trigger_maps_a_fixed_unit_interval_rule() {
    let mut warnings = Vec::new();
    let cfg = trigger_config(
        "schedule",
        &json(r#"{ "rule": { "interval": [{ "field": "hours", "hoursInterval": 2 }] } }"#),
        &mut warnings,
        "ScheduleTrigger",
    );
    assert_eq!(cfg.at("schedule"), json(r#"{ "kind": "every", "every_ms": 7200000.0 }"#));
}

#[test]
fn unrecognized_schedule_shape_warns_instead_of_guessing() {
    let mut warnings = Vec::new();
    let cfg = trigger_config(
        "schedule",
        &json(r#"{ "rule": { "interval": [{ "field": "weekday", "weekday": 1 }] } }"#),
        &mut warnings,
        "Weekly",
    );
    assert!(cfg.get("schedule").is_none());
    assert!(warnings
        .iter()
        .any(|w| w.contains("Weekly") && w.contains("could not be translated")));
}

#[test]
fn untranslated_json_body_expression_makes_the_http_node_a_placeholder() {
    let mut warnings = Vec::new();
    let (kind, cfg) = map_http_request_node(
        &json(r#"{ "jsonBody": "={{ $json.payload + 1 }}" }"#),
        &mut warnings,
        "Expression HTTP",
    );
    assert_eq!(kind, NodeKind::Transform);
    assert_eq!(
        cfg.at("_n8n_import").at("untranslated").text_at("jsonBody"),
        Some("={{ $json.payload + 1 }}")
    );
}

#[test]
fn unsupported_http_parts_are_all_preserved_for_repair() {
    let mut warnings = Vec::new();
    let (_, cfg) = map_http_request_node(
        &json(
            r#"{
            "bodyParameters": { "unsupported": "body" },
            "headerParameters": { "unsupported": "headers" }
        }"#,
        ),
        &mut warnings,
        "Broken HTTP",
    );
    let kept = cfg.at("_n8n_import").at("untranslated");
    assert_eq!(kept.at("bodyParameters"), json(r#"{ "unsupported": "body" }"#));
    assert_eq!(kept.at("headerParameters"), json(r#"{ "unsupported": "headers" }"#));
}

#[test]
fn expressions_inside_a_configuration_are_translated_in_place() {
    let mut warnings = Vec::new();
    let cfg = translate_config(
        &json(r#"{ "a": ["={{ $json.x }}", 1], "b": { "c": "plain" } }"#),
        &mut warnings,
        "n",
    );
    assert_eq!(cfg, json(r#"{ "a": ["=.item.x", 1], "b": { "c": "plain" } }"#));
    assert!(warnings.is_empty());
}

#[test]
fn names_in_strings_and_comments_are_no_globals() {
    for clean in [
        "const a = 'items';",
        "// items\nconst a = 1;",
        "/* $json */ let b = `items`;",
        "const itemsList = 1;",
        "function f() { return 1; }",
    ] {
        assert!(!uses_n8n_code_globals(clean), "{clean}");
    }
    for used in ["items.map(f)", "`${$json.a}`", "return 1;", "$input.all()"] {
        assert!(uses_n8n_code_globals(used), "{used}");
    }
}

#[test]
fn a_node_is_mapped_by_its_type() {
    let mut warnings = Vec::new();
    let (kind, cfg) =
        map_node("n8n-nodes-base.manualTrigger", &json("{}"), "Go", &mut warnings);
    assert_eq!(kind, NodeKind::Trigger);
    assert_eq!(cfg.text_at("trigger_kind"), Some("manual"));
    let (kind, _) = map_node("n8n-nodes-base.merge", &json("{}"), "Join", &mut warnings);
    assert_eq!(kind, NodeKind::Merge);
}

#[test]
fn only_a_return_of_the_code_itself_counts() {
    for inner in [
        "[1].map((x) => { return x; });",
        "const f = function (x) { return x; };",
        "const f = async (x) => { if (x) { return 1; } return 2; };",
        "const f = function (a = { b: 1 }) { return a; };",
        "const o = { double(x) { return x * 2; } };",
        "class C { get(x) { for (const y of x) { return y; } } }",
        "class C extends mix({ a: 1 }) { m() { return 1; } }",
        "export default { if(x) { return x; }, 'quoted'() { return 1; }, [k](x) { return 2; } };",
        "const o = { a: { m() { return 1; } }, b: [{ n() { return 2; } }] };",
        "const f = function (a = function () { return 1; }) { return 2; };",
    ] {
        assert!(!uses_n8n_code_globals(inner), "{inner}");
    }
    for own in [
        "return 1;",
        "const f = x => x; if (f(1)) { return 1; }",
        "[1].map((x) => { return x; }); return 2;",
        "for await (const x of y) { return x; }",
        "const f = function (x) { return x; }; while (true) { return f(1); }",
        "switch (x) { default: return 1; }",
        "f()\n{return}",
        "const o = { m(x) { return x; } };\nf(o)\n{ return 1; }",
        "class C { m() { return 1; } }\nnew C()\n{ return 2; }",
        "{ f()\n{ return 1; } }",
        "x = { class: 1 }; { f()\n{ return 1; } }",
    ] {
        assert!(uses_n8n_code_globals(own), "{own}");
    }
}
