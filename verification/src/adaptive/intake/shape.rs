//! The runnable shape of a graph: what tells one written graph from another.
//!
//! Nodes, edges and declared inputs belong to it, and nothing else does. Two
//! graphs of one shape are the same attempt, whatever they are called.
use std::collections::hash_map::DefaultHasher;
use std::hash::Hasher;

use vstd::prelude::*;
use vstd::std_specs::hash::DefaultHasherAdditionalSpecFns;
use vstd::utf8::encode_utf8;

use crate::json::{
    array, count_json, member, members, object, text_json, Json, JsonView, Number, NumberView,
};
use crate::json_text::{json_text, print_json};
use crate::model::graph::{
    input_type_text, kind_name, kind_text, Edge, EdgeView, GraphView, Node, NodeView, PositionView,
    WorkflowGraph, WorkflowInput, WorkflowInputView,
};
use crate::text::views;

verus! {

/// Where an editor shows a node, as a graph's JSON holds it.
pub open spec fn position_json(position: PositionView) -> JsonView {
    JsonView::Object(
        seq![("x"@, JsonView::Number(position.x)), ("y"@, JsonView::Number(position.y))],
    )
}

/// A node as a graph's JSON holds it.
pub open spec fn node_json(node: NodeView) -> JsonView {
    JsonView::Object(
        seq![
            ("id"@, JsonView::String(node.id)),
            ("kind"@, JsonView::String(kind_text(node.kind))),
            ("type_version"@, JsonView::Number(NumberView::PosInt(node.type_version as u64))),
            ("name"@, JsonView::String(node.name)),
            ("config"@, node.config),
        ] + (match node.position {
            Some(position) => seq![("position"@, position_json(position))],
            None => Seq::empty(),
        }),
    )
}

/// An edge as a graph's JSON holds it.
pub open spec fn edge_json(edge: EdgeView) -> JsonView {
    JsonView::Object(
        seq![
            ("from_node"@, JsonView::String(edge.from_node)),
            ("from_port"@, JsonView::String(edge.from_port)),
            ("to_node"@, JsonView::String(edge.to_node)),
            ("to_port"@, JsonView::String(edge.to_port)),
        ],
    )
}

/// A declared input as a graph's JSON holds it.
pub open spec fn input_json(input: WorkflowInputView) -> JsonView {
    JsonView::Object(
        seq![
            ("name"@, JsonView::String(input.name)),
            ("type"@, JsonView::String(input_type_text(input.ty))),
            ("required"@, JsonView::Bool(input.required)),
        ] + (match input.default {
            Some(default) => seq![("default"@, default)],
            None => Seq::empty(),
        }) + (match input.description {
            Some(description) => seq![("description"@, JsonView::String(description))],
            None => Seq::empty(),
        }),
    )
}

/// The runnable shape of a graph.
pub open spec fn shape_of(g: GraphView) -> JsonView {
    JsonView::Object(
        seq![
            ("nodes"@, JsonView::Array(Seq::new(g.nodes.len(), |i: int| node_json(g.nodes[i])))),
            ("edges"@, JsonView::Array(Seq::new(g.edges.len(), |i: int| edge_json(g.edges[i])))),
            (
                "inputs"@,
                JsonView::Array(Seq::new(g.inputs.len(), |i: int| input_json(g.inputs[i]))),
            ),
        ],
    )
}

fn number(value: &Number) -> (r: Json)
    ensures
        r@ == JsonView::Number(value@),
{
    match value {
        Number::PosInt(n) => Json::Number(Number::PosInt(*n)),
        Number::NegInt(n) => Json::Number(Number::NegInt(*n)),
        Number::Float(text) => Json::Number(Number::Float(text.clone())),
    }
}

fn write_node(node: &Node) -> (r: Json)
    ensures
        r@ == node_json(node@),
{
    let mut entries: Vec<(String, Json)> = Vec::new();
    entries.push(member("id", text_json(node.id.as_str())));
    entries.push(member("kind", text_json(kind_name(&node.kind))));
    entries.push(member("type_version", count_json(node.type_version as u64)));
    entries.push(member("name", text_json(node.name.as_str())));
    entries.push(member("config", node.config.clone()));
    match &node.position {
        Some(position) => {
            let mut point: Vec<(String, Json)> = Vec::new();
            point.push(member("x", number(&position.x)));
            point.push(member("y", number(&position.y)));
            assert(members(point@) =~= position_json(position@)->Object_0);
            entries.push(member("position", object(point)));
        },
        None => {},
    }
    assert(members(entries@) =~= node_json(node@)->Object_0);
    object(entries)
}

fn write_edge(edge: &Edge) -> (r: Json)
    ensures
        r@ == edge_json(edge@),
{
    let mut entries: Vec<(String, Json)> = Vec::new();
    entries.push(member("from_node", text_json(edge.from_node.as_str())));
    entries.push(member("from_port", text_json(edge.from_port.as_str())));
    entries.push(member("to_node", text_json(edge.to_node.as_str())));
    entries.push(member("to_port", text_json(edge.to_port.as_str())));
    assert(members(entries@) =~= edge_json(edge@)->Object_0);
    object(entries)
}

fn write_input(input: &WorkflowInput) -> (r: Json)
    ensures
        r@ == input_json(input@),
{
    let mut entries: Vec<(String, Json)> = Vec::new();
    entries.push(member("name", text_json(input.name.as_str())));
    entries.push(member("type", text_json(input.ty.as_str())));
    entries.push(member("required", Json::Bool(input.required)));
    match &input.default {
        Some(default) => entries.push(member("default", default.clone())),
        None => {},
    }
    match &input.description {
        Some(description) => entries.push(member("description", text_json(description.as_str()))),
        None => {},
    }
    assert(members(entries@) =~= input_json(input@)->Object_0);
    object(entries)
}

/// The runnable shape of a graph, as the text a digest of it is taken of.
pub fn shape_text(graph: &WorkflowGraph) -> (r: String)
    ensures
        r@ == json_text(shape_of(graph@)),
{
    let ghost shown = shape_of(graph@)->Object_0;
    let mut nodes: Vec<Json> = Vec::new();
    let mut i: usize = 0;
    while i < graph.nodes.len()
        invariant
            i <= graph.nodes@.len(),
            nodes@.len() == i,
            forall|k: int| 0 <= k < i ==> (#[trigger] nodes@[k])@ == node_json(graph@.nodes[k]),
        decreases graph.nodes@.len() - i,
    {
        nodes.push(write_node(&graph.nodes[i]));
        i = i + 1;
    }
    assert(views(nodes@) =~= shown[0].1->Array_0);
    let mut edges: Vec<Json> = Vec::new();
    let mut j: usize = 0;
    while j < graph.edges.len()
        invariant
            j <= graph.edges@.len(),
            edges@.len() == j,
            forall|k: int| 0 <= k < j ==> (#[trigger] edges@[k])@ == edge_json(graph@.edges[k]),
        decreases graph.edges@.len() - j,
    {
        edges.push(write_edge(&graph.edges[j]));
        j = j + 1;
    }
    assert(views(edges@) =~= shown[1].1->Array_0);
    let mut inputs: Vec<Json> = Vec::new();
    let mut k: usize = 0;
    while k < graph.inputs.len()
        invariant
            k <= graph.inputs@.len(),
            inputs@.len() == k,
            forall|m: int| 0 <= m < k ==> (#[trigger] inputs@[m])@ == input_json(graph@.inputs[m]),
        decreases graph.inputs@.len() - k,
    {
        inputs.push(write_input(&graph.inputs[k]));
        k = k + 1;
    }
    assert(views(inputs@) =~= shown[2].1->Array_0);
    let mut entries: Vec<(String, Json)> = Vec::new();
    entries.push(member("nodes", array(nodes)));
    entries.push(member("edges", array(edges)));
    entries.push(member("inputs", array(inputs)));
    assert(members(entries@) =~= shown);
    print_json(&object(entries))
}

/// The digest of a text: what a fresh `DefaultHasher` makes of its bytes and the
/// byte that ends a text.
pub open spec fn digest_of(text: Seq<char>) -> u64 {
    DefaultHasher::spec_finish(seq![encode_utf8(text), seq![0xffu8]])
}

/// A digest of a graph's runnable shape.
pub fn shape_digest(graph: &WorkflowGraph) -> (r: u64)
    ensures
        r == digest_of(json_text(shape_of(graph@))),
{
    let text = shape_text(graph);
    let mut hasher = DefaultHasher::new();
    hasher.write(text.as_str().as_bytes());
    let end: [u8; 1] = [0xff];
    hasher.write(&end);
    assert(end@ =~= seq![0xffu8]);
    assert(hasher@ =~= seq![encode_utf8(text@), seq![0xffu8]]);
    hasher.finish()
}

/// Graphs that run alike have one shape: what a graph is called, and the agents
/// it brings along, do not tell it from another.
pub proof fn names_are_no_new_idea(a: GraphView, b: GraphView)
    requires
        a.nodes == b.nodes,
        a.edges == b.edges,
        a.inputs == b.inputs,
    ensures
        shape_of(a) == shape_of(b),
{
}

/// Graphs of one shape have the same edges, nodes of the same ids and
/// configurations, and ask for the same inputs: one that requires a value is
/// told from one that does not, though every node is the same.
pub proof fn shapes_tell_graphs_apart(a: GraphView, b: GraphView, i: int)
    requires
        shape_of(a) == shape_of(b),
    ensures
        a.nodes.len() == b.nodes.len(),
        a.edges.len() == b.edges.len(),
        a.inputs.len() == b.inputs.len(),
        0 <= i < a.inputs.len() ==> a.inputs[i].name == b.inputs[i].name && a.inputs[i].required
            == b.inputs[i].required,
        0 <= i < a.nodes.len() ==> a.nodes[i].id == b.nodes[i].id && a.nodes[i].config
            == b.nodes[i].config,
        0 <= i < a.edges.len() ==> a.edges[i] == b.edges[i],
{
    let x = shape_of(a)->Object_0;
    let y = shape_of(b)->Object_0;
    let nodes = x[0].1->Array_0;
    let edges = x[1].1->Array_0;
    let inputs = x[2].1->Array_0;
    assert(x[0].1 == y[0].1 && x[1].1 == y[1].1 && x[2].1 == y[2].1);
    assert(nodes == Seq::new(b.nodes.len(), |k: int| node_json(b.nodes[k])));
    assert(edges == Seq::new(b.edges.len(), |k: int| edge_json(b.edges[k])));
    assert(inputs == Seq::new(b.inputs.len(), |k: int| input_json(b.inputs[k])));
    assert(nodes.len() == a.nodes.len());
    assert(edges.len() == a.edges.len());
    assert(inputs.len() == a.inputs.len());
    if 0 <= i < a.inputs.len() {
        assert(inputs[i] == input_json(a.inputs[i]));
        assert(inputs[i] == input_json(b.inputs[i]));
        assert(inputs[i]->Object_0[0].1 == JsonView::String(a.inputs[i].name));
        assert(inputs[i]->Object_0[0].1 == JsonView::String(b.inputs[i].name));
        assert(inputs[i]->Object_0[2].1 == JsonView::Bool(a.inputs[i].required));
        assert(inputs[i]->Object_0[2].1 == JsonView::Bool(b.inputs[i].required));
    }
    if 0 <= i < a.nodes.len() {
        assert(nodes[i] == node_json(a.nodes[i]));
        assert(nodes[i] == node_json(b.nodes[i]));
        assert(nodes[i]->Object_0[0].1 == JsonView::String(a.nodes[i].id));
        assert(nodes[i]->Object_0[0].1 == JsonView::String(b.nodes[i].id));
        assert(nodes[i]->Object_0[4].1 == a.nodes[i].config);
        assert(nodes[i]->Object_0[4].1 == b.nodes[i].config);
    }
    if 0 <= i < a.edges.len() {
        assert(edges[i] == edge_json(a.edges[i]));
        assert(edges[i] == edge_json(b.edges[i]));
        let e = edges[i]->Object_0;
        assert(e[0].1 == JsonView::String(a.edges[i].from_node) && e[0].1 == JsonView::String(
            b.edges[i].from_node,
        ));
        assert(e[1].1 == JsonView::String(a.edges[i].from_port) && e[1].1 == JsonView::String(
            b.edges[i].from_port,
        ));
        assert(e[2].1 == JsonView::String(a.edges[i].to_node) && e[2].1 == JsonView::String(
            b.edges[i].to_node,
        ));
        assert(e[3].1 == JsonView::String(a.edges[i].to_port) && e[3].1 == JsonView::String(
            b.edges[i].to_port,
        ));
        assert(a.edges[i] =~= b.edges[i]);
    }
}

} // verus!
