//! Import of whole n8n workflows.
//!
//! n8n keys connections by node name and allows any number of triggers; a
//! graph joins nodes by id and has one trigger. Whatever is approximated on
//! the way is reported in a warning.
use vstd::prelude::*;

use crate::catalog::n8n::node_mapping::{
    map_node, mapped_node, node_text, node_warnings, placeholder, placeholder_json,
};
use crate::json::{member, members, object, text_json, Json, JsonView, Number};
use crate::model::graph::{
    empty_graph, Edge, EdgeView, GraphView, Node, NodeKind, NodeView, Position, PositionView,
    WorkflowGraph,
};
use crate::text::{decimal, decimal_text, opt_view, same, views};

verus! {

/// The value is an n8n export: it has connections, or a node with a type.
pub open spec fn is_n8n(value: JsonView) -> bool {
    ||| value.get("connections"@) is Some
    ||| value.at("nodes"@) is Array && exists|i: int|
        0 <= i < value.at("nodes"@)->Array_0.len() && (#[trigger] value.at(
            "nodes"@,
        )->Array_0[i]).text_at("type"@) is Some
}

/// Whether a value looks like an n8n export.
pub fn looks_like_n8n(value: &Json) -> (r: bool)
    ensures
        r == is_n8n(value@),
{
    if value.get("connections").is_some() {
        return true;
    }
    match value.get("nodes") {
        Some(nodes) => match nodes.as_array() {
            Some(list) => {
                let ghost all = views(list@);
                assert(value@.at("nodes"@) == nodes@);
                assert(nodes@->Array_0 == all);
                let mut i: usize = 0;
                while i < list.len()
                    invariant
                        i <= list@.len(),
                        all == views(list@),
                        forall|k: int|
                            0 <= k < i ==> (#[trigger] all[k]).text_at("type"@) is None,
                        value@.at("nodes"@) is Array,
                        value@.at("nodes"@)->Array_0 == all,
                    decreases list@.len() - i,
                {
                    assert(all[i as int] == list@[i as int]@);
                    if list[i].text_at("type").is_some() {
                        assert(value@.at("nodes"@)->Array_0[i as int].text_at("type"@) is Some);
                        return true;
                    }
                    i = i + 1;
                }
                false
            },
            None => false,
        },
        None => false,
    }
}

/// The port an n8n output index becomes: a condition's two verdicts, a
/// switch's numbered outputs, and the one output of anything else.
pub open spec fn port_name(kind: Option<NodeKind>, index: nat) -> Seq<char> {
    match kind {
        Some(NodeKind::Condition) => if index == 0 {
            "true"@
        } else {
            "false"@
        },
        Some(NodeKind::Switch) => decimal(index),
        _ => "main"@,
    }
}

/// The port an n8n output index becomes.
pub fn output_port_name(kind: Option<&NodeKind>, index: usize) -> (r: String)
    ensures
        r@ == port_name(
            (match kind {
                Some(inner) => Some(*inner),
                None => None,
            }),
            index as nat,
        ),
{
    match kind {
        Some(NodeKind::Condition) => if index == 0 {
            "true".to_owned()
        } else {
            "false".to_owned()
        },
        Some(NodeKind::Switch) => decimal_text(index as u64),
        _ => "main".to_owned(),
    }
}

/// The id of the node at a position: its own, else its name, else one by its
/// position.
pub open spec fn id_of(raw: JsonView, index: nat) -> Seq<char> {
    if raw.has_text("id"@) {
        raw.text_or_empty("id"@)
    } else if raw.has_text("name"@) {
        raw.text_or_empty("name"@)
    } else {
        "node_"@ + decimal(index)
    }
}

/// The name of the node at a position: its own, else its id.
pub open spec fn name_of(raw: JsonView, index: nat) -> Seq<char> {
    if raw.has_text("name"@) {
        raw.text_or_empty("name"@)
    } else {
        id_of(raw, index)
    }
}

fn read_id(raw: &Json, index: usize) -> (r: String)
    ensures
        r@ == id_of(raw@, index as nat),
{
    if raw.has_text("id") {
        raw.text_or_empty("id")
    } else if raw.has_text("name") {
        raw.text_or_empty("name")
    } else {
        let mut id = "node_".to_owned();
        let digits = decimal_text(index as u64);
        id.append(digits.as_str());
        id
    }
}

fn read_name(raw: &Json, index: usize) -> (r: String)
    ensures
        r@ == name_of(raw@, index as nat),
{
    if raw.has_text("name") {
        raw.text_or_empty("name")
    } else {
        read_id(raw, index)
    }
}

/// Where n8n shows a node.
pub open spec fn position_of(raw: JsonView) -> Option<PositionView> {
    match raw.at("position"@) {
        JsonView::Array(at) => if at.len() >= 2 && at[0] is Number && at[1] is Number {
            Some(PositionView { x: at[0]->Number_0, y: at[1]->Number_0 })
        } else {
            None
        },
        _ => None,
    }
}

fn copy_number(n: &Number) -> (r: Number)
    ensures
        r@ == n@,
{
    match n {
        Number::PosInt(n) => Number::PosInt(*n),
        Number::NegInt(n) => Number::NegInt(*n),
        Number::Float(text) => Number::Float(text.clone()),
    }
}

fn read_position(raw: &Json) -> (r: Option<Position>)
    ensures
        opt_view(r) == position_of(raw@),
{
    match raw.get("position") {
        Some(at) => match at.as_array() {
            Some(list) => {
                if list.len() < 2 {
                    return None;
                }
                assert(views(list@)[0] == list@[0]@);
                assert(views(list@)[1] == list@[1]@);
                match (&list[0], &list[1]) {
                    (Json::Number(x), Json::Number(y)) => Some(
                        Position { x: copy_number(x), y: copy_number(y) },
                    ),
                    _ => None,
                }
            },
            None => None,
        },
        None => None,
    }
}

/// What has been read of a workflow so far.
#[verifier::ext_equal]
pub struct Reading {
    pub nodes: Seq<NodeView>,
    /// The n8n name of each node.
    pub names: Seq<Seq<char>>,
    pub has_trigger: bool,
    pub warnings: Seq<Seq<char>>,
}

/// The last position of a name.
pub open spec fn last_named(names: Seq<Seq<char>>, name: Seq<char>) -> Option<int>
    decreases names.len(),
{
    if names.len() == 0 {
        None
    } else if names.last() == name {
        Some(names.len() - 1)
    } else {
        last_named(names.drop_last(), name)
    }
}

/// What is said of two nodes with one name.
pub open spec fn twin_warning(first: Seq<char>, second: Seq<char>, name: Seq<char>) -> Seq<char> {
    "Nodes '"@ + first + "' and '"@ + second + "' are both named '"@ + name
        + "'; connections by that name go to '"@ + second + "'."@
}

/// What is said of a trigger that is not the first.
pub open spec fn demoted_warning(name: Seq<char>) -> Seq<char> {
    node_text(name)
        + " is a further trigger; a flow has one, so it was imported as an editable placeholder."@
}

/// One more node read.
pub open spec fn read_node(before: Reading, raw: JsonView) -> Reading {
    let index = before.nodes.len();
    let id = id_of(raw, index);
    let name = name_of(raw, index);
    let n8n_type = raw.text_or_empty("type"@);
    let params = raw.at("parameters"@);
    let (kind, config) = mapped_node(n8n_type, params);
    let demoted = kind == NodeKind::Trigger && before.has_trigger;
    Reading {
        nodes: before.nodes.push(
            NodeView {
                id,
                kind: if demoted {
                    NodeKind::Transform
                } else {
                    kind
                },
                type_version: 1,
                name,
                config: if demoted {
                    placeholder(n8n_type, params)
                } else {
                    config
                },
                position: position_of(raw),
            },
        ),
        names: before.names.push(name),
        has_trigger: before.has_trigger || kind == NodeKind::Trigger,
        warnings: before.warnings + (match last_named(before.names, name) {
            Some(i) => seq![twin_warning(before.nodes[i].id, id, name)],
            None => Seq::empty(),
        }) + node_warnings(n8n_type, params, name) + (if demoted {
            seq![demoted_warning(name)]
        } else {
            Seq::empty()
        }),
    }
}

/// The first `n` nodes read.
pub open spec fn read_nodes(raw: Seq<JsonView>, n: nat) -> Reading
    decreases n,
{
    if n == 0 {
        Reading {
            nodes: Seq::empty(),
            names: Seq::empty(),
            has_trigger: false,
            warnings: Seq::empty(),
        }
    } else {
        read_node(read_nodes(raw, (n - 1) as nat), raw[n - 1])
    }
}

pub proof fn lemma_read_nodes(raw: Seq<JsonView>, n: nat)
    ensures
        read_nodes(raw, n).nodes.len() == n,
        read_nodes(raw, n).names.len() == n,
    decreases n,
{
    if n > 0 {
        lemma_read_nodes(raw, (n - 1) as nat);
    }
}

proof fn lemma_last_named(names: Seq<Seq<char>>, name: Seq<char>)
    ensures
        last_named(names, name) matches Some(i) ==> 0 <= i < names.len() && names[i] == name,
    decreases names.len(),
{
    if names.len() > 0 && names.last() != name {
        lemma_last_named(names.drop_last(), name);
    }
}

fn find_name(names: &Vec<String>, name: &str) -> (r: Option<usize>)
    ensures
        match r {
            Some(i) => i < names@.len() && last_named(views(names@), name@) == Some(i as int),
            None => last_named(views(names@), name@) is None,
        },
{
    let ghost all = views(names@);
    let mut n: usize = names.len();
    assert(all.take(n as int) =~= all);
    while n > 0
        invariant
            n <= names@.len(),
            all == views(names@),
            last_named(all, name@) == last_named(all.take(n as int), name@),
        decreases n,
    {
        assert(all.take(n as int).last() == names@[n - 1]@);
        assert(all.take(n as int).drop_last() =~= all.take(n - 1));
        if same(names[n - 1].as_str(), name) {
            return Some(n - 1);
        }
        n = n - 1;
    }
    None
}

/// What has been read of a workflow so far.
struct Reader {
    nodes: Vec<Node>,
    names: Vec<String>,
    has_trigger: bool,
    warnings: Vec<String>,
}

impl View for Reader {
    type V = Reading;

    closed spec fn view(&self) -> Reading {
        Reading {
            nodes: views(self.nodes@),
            names: views(self.names@),
            has_trigger: self.has_trigger,
            warnings: views(self.warnings@),
        }
    }
}

fn take_node(reader: &mut Reader, raw: &Json)
    requires
        old(reader).nodes@.len() == old(reader).names@.len(),
    ensures
        final(reader)@ == read_node(old(reader)@, raw@),
        final(reader).nodes@.len() == old(reader).nodes@.len() + 1,
        final(reader).names@.len() == final(reader).nodes@.len(),
{
    let ghost before = reader@;
    let index: usize = reader.nodes.len();
    let id = read_id(raw, index);
    let name = read_name(raw, index);
    let n8n_type = raw.text_or_empty("type");
    let params = raw.at("parameters");
    let ghost twins = match last_named(before.names, name@) {
        Some(i) => seq![twin_warning(before.nodes[i].id, id@, name@)],
        None => Seq::empty(),
    };
    match find_name(&reader.names, name.as_str()) {
        Some(i) => {
            assert(before.nodes[i as int] == reader.nodes@[i as int]@);
            let mut text = "Nodes '".to_owned();
            text.append(reader.nodes[i].id.as_str());
            text.append("' and '");
            text.append(id.as_str());
            text.append("' are both named '");
            text.append(name.as_str());
            text.append("'; connections by that name go to '");
            text.append(id.as_str());
            text.append("'.");
            reader.warnings.push(text);
        },
        None => {},
    }
    assert(views(reader.warnings@) =~= before.warnings + twins);
    let mapped = map_node(n8n_type.as_str(), &params, name.as_str(), &mut reader.warnings);
    let ghost said = views(reader.warnings@);
    let demoted = mapped.0 == NodeKind::Trigger && reader.has_trigger;
    let is_trigger = mapped.0 == NodeKind::Trigger;
    let kind = if demoted {
        NodeKind::Transform
    } else {
        mapped.0
    };
    let config = if demoted {
        placeholder_json(n8n_type.as_str(), &params)
    } else {
        mapped.1
    };
    if demoted {
        let mut text = "Node '".to_owned();
        text.append(name.as_str());
        text.append("'");
        text.append(
            " is a further trigger; a flow has one, so it was imported as an editable placeholder.",
        );
        reader.warnings.push(text);
        assert(views(reader.warnings@) =~= said + seq![demoted_warning(name@)]);
    } else {
        assert(said =~= said + Seq::empty());
    }
    let node = Node {
        id,
        kind,
        type_version: 1,
        name: name.clone(),
        config,
        position: read_position(raw),
    };
    reader.nodes.push(node);
    reader.names.push(name);
    reader.has_trigger = reader.has_trigger || is_trigger;
    proof {
        let after = read_node(before, raw@);
        assert(reader@.nodes =~= after.nodes);
        assert(reader@.names =~= after.names);
        assert(reader@.warnings =~= after.warnings);
    }
}

/// The edges made so far, and what was said on the way.
#[verifier::ext_equal]
pub struct Wiring {
    pub edges: Seq<EdgeView>,
    pub warnings: Seq<Seq<char>>,
}

/// What is said of a connection that names an unknown node.
pub open spec fn dangling_warning(from: Seq<char>, to: Seq<char>) -> Seq<char> {
    "Dropped a connection from '"@ + from + "' to '"@ + to + "': both have to be imported nodes."@
}

/// One more connection made, by names.
pub open spec fn connect(
    before: Wiring,
    read: Reading,
    from: Seq<char>,
    output: nat,
    target: JsonView,
) -> Wiring {
    let to = target.text_or_empty("node"@);
    match (last_named(read.names, from), last_named(read.names, to)) {
        (Some(f), Some(t)) => Wiring {
            edges: before.edges.push(
                EdgeView {
                    from_node: read.nodes[f].id,
                    from_port: port_name(Some(read.nodes[f].kind), output),
                    to_node: read.nodes[t].id,
                    to_port: "main"@,
                },
            ),
            ..before
        },
        _ => Wiring { warnings: before.warnings.push(dangling_warning(from, to)), ..before },
    }
}

/// The first `n` targets of one output.
pub open spec fn connect_targets(
    before: Wiring,
    read: Reading,
    from: Seq<char>,
    output: nat,
    targets: Seq<JsonView>,
    n: nat,
) -> Wiring
    decreases n,
{
    if n == 0 {
        before
    } else {
        connect(
            connect_targets(before, read, from, output, targets, (n - 1) as nat),
            read,
            from,
            output,
            targets[n - 1],
        )
    }
}

/// The items of an array; none for any other value.
pub open spec fn items_of(value: JsonView) -> Seq<JsonView> {
    match value {
        JsonView::Array(items) => items,
        _ => Seq::empty(),
    }
}

/// The first `n` outputs of one node.
pub open spec fn connect_outputs(
    before: Wiring,
    read: Reading,
    from: Seq<char>,
    outputs: Seq<JsonView>,
    n: nat,
) -> Wiring
    decreases n,
{
    if n == 0 {
        before
    } else {
        let targets = items_of(outputs[n - 1]);
        connect_targets(
            connect_outputs(before, read, from, outputs, (n - 1) as nat),
            read,
            from,
            (n - 1) as nat,
            targets,
            targets.len(),
        )
    }
}

/// The connections of the first `n` sources.
pub open spec fn connect_all(
    read: Reading,
    connections: Seq<(Seq<char>, JsonView)>,
    n: nat,
) -> Wiring
    decreases n,
{
    if n == 0 {
        Wiring { edges: Seq::empty(), warnings: read.warnings }
    } else {
        let (from, outs) = connections[n - 1];
        let outputs = items_of(outs.at("main"@));
        connect_outputs(
            connect_all(read, connections, (n - 1) as nat),
            read,
            from,
            outputs,
            outputs.len(),
        )
    }
}

fn make_connection(
    reader: &mut Reader,
    edges: &mut Vec<Edge>,
    read: Ghost<Reading>,
    from: &str,
    output: usize,
    target: &Json,
)
    requires
        old(reader)@.nodes == read@.nodes,
        old(reader)@.names == read@.names,
        old(reader).nodes@.len() == old(reader).names@.len(),
    ensures
        final(reader).nodes == old(reader).nodes,
        final(reader).names == old(reader).names,
        final(reader).has_trigger == old(reader).has_trigger,
        (Wiring { edges: views(final(edges)@), warnings: final(reader)@.warnings }) == connect(
            Wiring { edges: views(old(edges)@), warnings: old(reader)@.warnings },
            read@,
            from@,
            output as nat,
            target@,
        ),
{
    let ghost before = Wiring { edges: views(edges@), warnings: reader@.warnings };
    let to = target.text_or_empty("node");
    let source = find_name(&reader.names, from);
    let sink = find_name(&reader.names, to.as_str());
    match (source, sink) {
        (Some(f), Some(t)) => {
            assert(read@.nodes[f as int] == reader.nodes@[f as int]@);
            assert(read@.nodes[t as int] == reader.nodes@[t as int]@);
            let edge = Edge {
                from_node: reader.nodes[f].id.clone(),
                from_port: output_port_name(Some(&reader.nodes[f].kind), output),
                to_node: reader.nodes[t].id.clone(),
                to_port: "main".to_owned(),
            };
            edges.push(edge);
            assert(views(edges@) =~= before.edges.push(edge@));
        },
        _ => {
            let mut text = "Dropped a connection from '".to_owned();
            text.append(from);
            text.append("' to '");
            text.append(to.as_str());
            text.append("': both have to be imported nodes.");
            reader.warnings.push(text);
            assert(reader@.warnings =~= before.warnings.push(dangling_warning(from@, to@)));
        },
    }
}

fn make_outputs(
    reader: &mut Reader,
    edges: &mut Vec<Edge>,
    read: Ghost<Reading>,
    from: &str,
    outputs: &Vec<Json>,
)
    requires
        old(reader)@.nodes == read@.nodes,
        old(reader)@.names == read@.names,
        old(reader).nodes@.len() == old(reader).names@.len(),
    ensures
        final(reader).nodes == old(reader).nodes,
        final(reader).names == old(reader).names,
        final(reader).has_trigger == old(reader).has_trigger,
        (Wiring { edges: views(final(edges)@), warnings: final(reader)@.warnings })
            == connect_outputs(
            Wiring { edges: views(old(edges)@), warnings: old(reader)@.warnings },
            read@,
            from@,
            views(outputs@),
            outputs@.len(),
        ),
{
    let ghost all = views(outputs@);
    let ghost before = Wiring { edges: views(edges@), warnings: reader@.warnings };
    let ghost nodes = reader.nodes;
    let ghost names = reader.names;
    let ghost triggered = reader.has_trigger;
    let mut o: usize = 0;
    while o < outputs.len()
        invariant
            o <= outputs@.len(),
            all == views(outputs@),
            reader.nodes == nodes,
            reader.names == names,
            reader.has_trigger == triggered,
            reader@.nodes == read@.nodes,
            reader@.names == read@.names,
            nodes@.len() == names@.len(),
            (Wiring { edges: views(edges@), warnings: reader@.warnings }) == connect_outputs(
                before,
                read@,
                from@,
                all,
                o as nat,
            ),
        decreases outputs@.len() - o,
    {
        assert(all[o as int] == outputs@[o as int]@);
        let ghost so_far = Wiring { edges: views(edges@), warnings: reader@.warnings };
        match outputs[o].as_array() {
            Some(targets) => {
                let ghost list = views(targets@);
                assert(items_of(all[o as int]) == list);
                let mut t: usize = 0;
                while t < targets.len()
                    invariant
                        t <= targets@.len(),
                        list == views(targets@),
                        reader.nodes == nodes,
                        reader.names == names,
                        reader.has_trigger == triggered,
                        reader@.nodes == read@.nodes,
                        reader@.names == read@.names,
                        nodes@.len() == names@.len(),
                        (Wiring { edges: views(edges@), warnings: reader@.warnings })
                            == connect_targets(
                            so_far,
                            read@,
                            from@,
                            o as nat,
                            list,
                            t as nat,
                        ),
                    decreases targets@.len() - t,
                {
                    assert(list[t as int] == targets@[t as int]@);
                    make_connection(reader, edges, read, from, o, &targets[t]);
                    t = t + 1;
                }
            },
            None => {
                assert(items_of(all[o as int]) =~= Seq::empty());
            },
        }
        o = o + 1;
    }
}

/// The longest of the ids.
pub open spec fn longest(ids: Seq<Seq<char>>) -> nat
    decreases ids.len(),
{
    if ids.len() == 0 {
        0
    } else if ids.last().len() > longest(ids.drop_last()) {
        ids.last().len()
    } else {
        longest(ids.drop_last())
    }
}

pub proof fn lemma_longest(ids: Seq<Seq<char>>, id: Seq<char>)
    requires
        ids.contains(id),
    ensures
        id.len() <= longest(ids),
    decreases ids.len(),
{
    if ids.last() != id {
        let i = choose|i: int| 0 <= i < ids.len() && ids[i] == id;
        assert(ids.drop_last()[i] == id);
        lemma_longest(ids.drop_last(), id);
    }
}

/// The first of `base`, `base_`, `base__`, … that is no id yet.
pub open spec fn fresh_id(ids: Seq<Seq<char>>, base: Seq<char>) -> Seq<char>
    decreases longest(ids) + 1 - base.len(),
{
    if ids.contains(base) {
        proof {
            lemma_longest(ids, base);
        }
        fresh_id(ids, base.push('_'))
    } else {
        base
    }
}

/// The ids of the nodes.
pub open spec fn node_ids(nodes: Seq<NodeView>) -> Seq<Seq<char>> {
    Seq::new(nodes.len(), |i: int| nodes[i].id)
}

fn is_id(nodes: &Vec<Node>, id: &str) -> (r: bool)
    ensures
        r == node_ids(views(nodes@)).contains(id@),
{
    let ghost ids = node_ids(views(nodes@));
    let mut i: usize = 0;
    while i < nodes.len()
        invariant
            i <= nodes@.len(),
            ids == node_ids(views(nodes@)),
            forall|k: int| 0 <= k < i ==> ids[k] != id@,
        decreases nodes@.len() - i,
    {
        assert(ids[i as int] == nodes@[i as int].id@);
        if same(nodes[i].id.as_str(), id) {
            return true;
        }
        i = i + 1;
    }
    false
}

fn new_id(nodes: &Vec<Node>, base: &str) -> (r: String)
    ensures
        r@ == fresh_id(node_ids(views(nodes@)), base@),
{
    let ghost ids = node_ids(views(nodes@));
    let mut id = base.to_owned();
    while is_id(nodes, id.as_str())
        invariant
            ids == node_ids(views(nodes@)),
            fresh_id(ids, base@) == fresh_id(ids, id@),
        decreases longest(ids) + 1 - id@.len(),
    {
        proof {
            lemma_longest(ids, id@);
        }
        id.push('_');
    }
    id
}

/// Some edge leads to the node.
pub open spec fn is_reached(edges: Seq<EdgeView>, id: Seq<char>) -> bool {
    exists|i: int| 0 <= i < edges.len() && (#[trigger] edges[i]).to_node == id
}

/// The nodes among the first `n` that no edge leads to.
pub open spec fn roots(nodes: Seq<NodeView>, edges: Seq<EdgeView>, n: nat) -> Seq<Seq<char>>
    decreases n,
{
    if n == 0 {
        Seq::empty()
    } else if is_reached(edges, nodes[n - 1].id) {
        roots(nodes, edges, (n - 1) as nat)
    } else {
        roots(nodes, edges, (n - 1) as nat).push(nodes[n - 1].id)
    }
}

/// Where a flow begins: at the nodes no edge leads to, and at the first node
/// where every one is led to.
pub open spec fn entries_of(nodes: Seq<NodeView>, edges: Seq<EdgeView>) -> Seq<Seq<char>> {
    let open = roots(nodes, edges, nodes.len());
    if open.len() == 0 && nodes.len() > 0 {
        seq![nodes[0].id]
    } else {
        open
    }
}

fn reached(edges: &Vec<Edge>, id: &str) -> (r: bool)
    ensures
        r == is_reached(views(edges@), id@),
{
    let ghost all = views(edges@);
    let mut i: usize = 0;
    while i < edges.len()
        invariant
            i <= edges@.len(),
            all == views(edges@),
            forall|k: int| 0 <= k < i ==> (#[trigger] all[k]).to_node != id@,
        decreases edges@.len() - i,
    {
        assert(all[i as int] == edges@[i as int]@);
        if same(edges[i].to_node.as_str(), id) {
            return true;
        }
        i = i + 1;
    }
    false
}

fn find_entries(nodes: &Vec<Node>, edges: &Vec<Edge>) -> (r: Vec<String>)
    ensures
        views(r@) == entries_of(views(nodes@), views(edges@)),
{
    let ghost all = views(nodes@);
    let ghost known = views(edges@);
    let mut open: Vec<String> = Vec::new();
    let mut i: usize = 0;
    assert(views(open@) =~= roots(all, known, 0));
    while i < nodes.len()
        invariant
            i <= nodes@.len(),
            all == views(nodes@),
            known == views(edges@),
            views(open@) == roots(all, known, i as nat),
        decreases nodes@.len() - i,
    {
        assert(all[i as int] == nodes@[i as int]@);
        let ghost before = views(open@);
        if !reached(edges, nodes[i].id.as_str()) {
            open.push(nodes[i].id.clone());
            assert(views(open@) =~= before.push(nodes@[i as int]@.id));
        }
        i = i + 1;
    }
    if open.len() == 0 && nodes.len() > 0 {
        let mut first: Vec<String> = Vec::new();
        first.push(nodes[0].id.clone());
        assert(all[0] == nodes@[0]@);
        assert(views(first@) =~= seq![all[0].id]);
        return first;
    }
    open
}

/// The trigger of a flow that came without one.
pub open spec fn manual_trigger(id: Seq<char>) -> NodeView {
    NodeView {
        id,
        kind: NodeKind::Trigger,
        type_version: 1,
        name: "Manual trigger"@,
        config: JsonView::Object(seq![("trigger_kind"@, JsonView::String("manual"@))]),
        position: None,
    }
}

/// An edge on the default ports.
pub open spec fn plain_edge(from: Seq<char>, to: Seq<char>) -> EdgeView {
    EdgeView { from_node: from, from_port: "main"@, to_node: to, to_port: "main"@ }
}

/// What is said where a trigger was added.
pub open spec fn added_warning() -> Seq<char> {
    "The workflow has no trigger, so a manual trigger was added at its start."@
}

/// The imported nodes, edges and warnings, with a trigger added where there is
/// none.
pub open spec fn finished(read: Reading, wired: Wiring) -> (
    Seq<NodeView>,
    Seq<EdgeView>,
    Seq<Seq<char>>,
) {
    if read.has_trigger {
        (read.nodes, wired.edges, wired.warnings)
    } else {
        let id = fresh_id(node_ids(read.nodes), "trigger"@);
        let starts = entries_of(read.nodes, wired.edges);
        (
            seq![manual_trigger(id)] + read.nodes,
            wired.edges + Seq::new(starts.len(), |i: int| plain_edge(id, starts[i])),
            wired.warnings.push(added_warning()),
        )
    }
}

/// The message where there is nothing to import.
pub open spec fn no_nodes_message() -> Seq<char> {
    "not an n8n workflow: it has no `nodes` array"@
}

/// The connections of a workflow.
pub open spec fn connections_of(workflow: JsonView) -> Seq<(Seq<char>, JsonView)> {
    match workflow.at("connections"@) {
        JsonView::Object(entries) => entries,
        _ => Seq::empty(),
    }
}

/// The name of an imported graph.
pub open spec fn graph_name(workflow: JsonView) -> Seq<char> {
    match workflow.text_at("name"@) {
        Some(name) => name,
        None => "Imported workflow"@,
    }
}

/// What a workflow is imported as: a graph and the warnings, or nothing where
/// it has no nodes.
pub open spec fn imported(workflow: JsonView) -> Result<(GraphView, Seq<Seq<char>>), Seq<char>> {
    match workflow.at("nodes"@) {
        JsonView::Array(raw) => {
            let read = read_nodes(raw, raw.len());
            let connections = connections_of(workflow);
            let (nodes, edges, warnings) = finished(
                read,
                connect_all(read, connections, connections.len()),
            );
            Ok((GraphView { name: graph_name(workflow), nodes, edges, ..empty_graph() }, warnings))
        },
        _ => Err(no_nodes_message()),
    }
}

/// An imported workflow.
#[derive(Debug, PartialEq, Eq)]
pub struct Imported {
    pub graph: WorkflowGraph,
    pub warnings: Vec<String>,
}

/// The value of an import.
pub open spec fn import_view(result: Result<Imported, String>) -> Result<
    (GraphView, Seq<Seq<char>>),
    Seq<char>,
> {
    match result {
        Ok(done) => Ok((done.graph@, views(done.warnings@))),
        Err(message) => Err(message@),
    }
}

fn wire(reader: &mut Reader, connections: &Vec<(String, Json)>) -> (edges: Vec<Edge>)
    requires
        old(reader).nodes@.len() == old(reader).names@.len(),
    ensures
        final(reader).nodes == old(reader).nodes,
        final(reader).names == old(reader).names,
        final(reader).has_trigger == old(reader).has_trigger,
        (Wiring { edges: views(edges@), warnings: final(reader)@.warnings }) == connect_all(
            old(reader)@,
            members(connections@),
            connections@.len(),
        ),
{
    let ghost all = members(connections@);
    let ghost read = reader@;
    let ghost nodes = reader.nodes;
    let ghost names = reader.names;
    let ghost triggered = reader.has_trigger;
    let mut edges: Vec<Edge> = Vec::new();
    assert(views(edges@) =~= Seq::empty());
    let mut i: usize = 0;
    while i < connections.len()
        invariant
            i <= connections@.len(),
            all == members(connections@),
            reader.nodes == nodes,
            reader.names == names,
            reader.has_trigger == triggered,
            reader@.nodes == read.nodes,
            reader@.names == read.names,
            nodes@.len() == names@.len(),
            (Wiring { edges: views(edges@), warnings: reader@.warnings }) == connect_all(
                read,
                all,
                i as nat,
            ),
        decreases connections@.len() - i,
    {
        assert(all[i as int] == (connections@[i as int].0@, connections@[i as int].1@));
        let outs = connections[i].1.get("main");
        match outs {
            Some(value) => match value.as_array() {
                Some(outputs) => {
                    assert(items_of(all[i as int].1.at("main"@)) == views(outputs@));
                    make_outputs(
                        reader,
                        &mut edges,
                        Ghost(read),
                        connections[i].0.as_str(),
                        outputs,
                    );
                },
                None => {
                    assert(items_of(all[i as int].1.at("main"@)) =~= Seq::empty());
                },
            },
            None => {
                assert(items_of(all[i as int].1.at("main"@)) =~= Seq::empty());
            },
        }
        i = i + 1;
    }
    edges
}

fn add_trigger(reader: Reader, edges: Vec<Edge>) -> (r: (Vec<Node>, Vec<Edge>, Vec<String>))
    requires
        !reader.has_trigger,
    ensures
        (views(r.0@), views(r.1@), views(r.2@)) == finished(
            reader@,
            Wiring { edges: views(edges@), warnings: reader@.warnings },
        ),
{
    let ghost read = reader@;
    let ghost wired = Wiring { edges: views(edges@), warnings: reader@.warnings };
    let id = new_id(&reader.nodes, "trigger");
    let starts = find_entries(&reader.nodes, &edges);
    let ghost list = views(starts@);
    let mut settings: Vec<(String, Json)> = Vec::new();
    settings.push(member("trigger_kind", text_json("manual")));
    assert(members(settings@) =~= seq![("trigger_kind"@, JsonView::String("manual"@))]);
    let trigger = Node {
        id: id.clone(),
        kind: NodeKind::Trigger,
        type_version: 1,
        name: "Manual trigger".to_owned(),
        config: object(settings),
        position: None,
    };
    let mut nodes: Vec<Node> = Vec::new();
    nodes.push(trigger);
    let mut rest = reader.nodes;
    nodes.append(&mut rest);
    assert(views(nodes@) =~= seq![manual_trigger(id@)] + read.nodes);
    let mut joined = edges;
    let mut i: usize = 0;
    assert(views(joined@) =~= wired.edges + Seq::new(0, |k: int| plain_edge(id@, list[k])));
    while i < starts.len()
        invariant
            i <= starts@.len(),
            list == views(starts@),
            views(joined@) == wired.edges + Seq::new(i as nat, |k: int| plain_edge(id@, list[k])),
        decreases starts@.len() - i,
    {
        assert(list[i as int] == starts@[i as int]@);
        let ghost before = views(joined@);
        let edge = Edge {
            from_node: id.clone(),
            from_port: "main".to_owned(),
            to_node: starts[i].clone(),
            to_port: "main".to_owned(),
        };
        joined.push(edge);
        i = i + 1;
        assert(views(joined@) =~= before.push(edge@));
        assert(views(joined@) =~= wired.edges + Seq::new(
            i as nat,
            |k: int| plain_edge(id@, list[k]),
        ));
    }
    let mut warnings = reader.warnings;
    warnings.push("The workflow has no trigger, so a manual trigger was added at its start.".to_owned());
    assert(views(warnings@) =~= wired.warnings.push(added_warning()));
    (nodes, joined, warnings)
}

/// Imports an n8n workflow.
pub fn map_n8n_workflow(workflow: &Json) -> (r: Result<Imported, String>)
    ensures
        import_view(r) == imported(workflow@),
{
    let raw = match workflow.get("nodes") {
        Some(nodes) => match nodes.as_array() {
            Some(list) => list,
            None => {
                return Err("not an n8n workflow: it has no `nodes` array".to_owned());
            },
        },
        None => {
            return Err("not an n8n workflow: it has no `nodes` array".to_owned());
        },
    };
    let ghost all = views(raw@);
    let mut reader = Reader {
        nodes: Vec::new(),
        names: Vec::new(),
        has_trigger: false,
        warnings: Vec::new(),
    };
    let mut i: usize = 0;
    assert(reader@ =~= read_nodes(all, 0));
    while i < raw.len()
        invariant
            i <= raw@.len(),
            all == views(raw@),
            reader@ == read_nodes(all, i as nat),
            reader.nodes@.len() == i,
            reader.names@.len() == i,
        decreases raw@.len() - i,
    {
        assert(all[i as int] == raw@[i as int]@);
        take_node(&mut reader, &raw[i]);
        i = i + 1;
    }
    let ghost read = reader@;
    let none: Vec<(String, Json)> = Vec::new();
    let connections = match workflow.get("connections") {
        Some(value) => match value.as_object() {
            Some(entries) => entries,
            None => &none,
        },
        None => &none,
    };
    assert(members(connections@) =~= connections_of(workflow@));
    let edges = wire(&mut reader, connections);
    let ghost wired = Wiring { edges: views(edges@), warnings: reader@.warnings };
    let name = match workflow.text_copy("name") {
        Some(name) => name,
        None => "Imported workflow".to_owned(),
    };
    let ghost done = finished(read, wired);
    let parts = if reader.has_trigger {
        (reader.nodes, edges, reader.warnings)
    } else {
        assert(finished(reader@, wired) == done);
        add_trigger(reader, edges)
    };
    let mut graph = WorkflowGraph::default();
    graph.name = name;
    graph.nodes = parts.0;
    graph.edges = parts.1;
    Ok(Imported { graph, warnings: parts.2 })
}

/// Position `i` holds the only trigger.
pub open spec fn sole_trigger(nodes: Seq<NodeView>, i: int) -> bool {
    &&& 0 <= i < nodes.len()
    &&& nodes[i].kind == NodeKind::Trigger
    &&& forall|k: int|
        0 <= k < nodes.len() && (#[trigger] nodes[k]).kind == NodeKind::Trigger ==> k == i
}

proof fn lemma_triggers(raw: Seq<JsonView>, n: nat)
    ensures
        read_nodes(raw, n).has_trigger ==> exists|i: int|
            #[trigger] sole_trigger(read_nodes(raw, n).nodes, i),
        !read_nodes(raw, n).has_trigger ==> forall|k: int|
            0 <= k < read_nodes(raw, n).nodes.len() ==> (#[trigger] read_nodes(
                raw,
                n,
            ).nodes[k]).kind != NodeKind::Trigger,
    decreases n,
{
    if n > 0 {
        let before = read_nodes(raw, (n - 1) as nat);
        let after = read_nodes(raw, n);
        lemma_triggers(raw, (n - 1) as nat);
        let last = before.nodes.len() as int;
        assert(after.nodes.len() == last + 1);
        assert forall|k: int| 0 <= k < last implies #[trigger] after.nodes[k]
            == before.nodes[k] by {}
        if before.has_trigger {
            let i = choose|i: int| #[trigger] sole_trigger(before.nodes, i);
            assert(after.nodes[last].kind != NodeKind::Trigger);
            assert(sole_trigger(after.nodes, i));
        } else if after.has_trigger {
            assert(sole_trigger(after.nodes, last));
        }
    }
}

/// Every import has exactly one trigger: the first that came, or one that was
/// added.
pub proof fn imports_have_one_trigger(workflow: JsonView)
    ensures
        imported(workflow) matches Ok(done) ==> exists|i: int|
            #[trigger] sole_trigger(done.0.nodes, i),
{
    if imported(workflow) is Ok {
        let raw = workflow.at("nodes"@)->Array_0;
        let read = read_nodes(raw, raw.len());
        lemma_triggers(raw, raw.len());
        let nodes = imported(workflow)->Ok_0.0.nodes;
        if !read.has_trigger {
            assert forall|k: int|
                0 <= k < nodes.len() && (#[trigger] nodes[k]).kind == NodeKind::Trigger implies k
                == 0 by {
                if k > 0 {
                    assert(nodes[k] == read.nodes[k - 1]);
                }
            }
            assert(sole_trigger(nodes, 0));
        }
    }
}

/// No node of the workflow is dropped, whatever its type.
pub proof fn imports_keep_every_node(workflow: JsonView, i: int)
    requires
        workflow.at("nodes"@) is Array,
        0 <= i < workflow.at("nodes"@)->Array_0.len(),
    ensures
        imported(workflow) is Ok,
        node_ids(imported(workflow)->Ok_0.0.nodes).contains(
            id_of(workflow.at("nodes"@)->Array_0[i], i as nat),
        ),
{
    let raw = workflow.at("nodes"@)->Array_0;
    lemma_read_id(raw, raw.len(), i);
    let read = read_nodes(raw, raw.len());
    let nodes = imported(workflow)->Ok_0.0.nodes;
    let at = if read.has_trigger {
        i
    } else {
        i + 1
    };
    lemma_read_nodes(raw, raw.len());
    assert(nodes[at] == read.nodes[i]);
    assert(node_ids(nodes)[at] == id_of(raw[i], i as nat));
}

proof fn lemma_read_id(raw: Seq<JsonView>, n: nat, i: int)
    requires
        0 <= i < n,
    ensures
        read_nodes(raw, n).nodes.len() == n,
        read_nodes(raw, n).nodes[i].id == id_of(raw[i], i as nat),
    decreases n,
{
    lemma_read_nodes(raw, n);
    lemma_read_nodes(raw, (n - 1) as nat);
    if i < n - 1 {
        lemma_read_id(raw, (n - 1) as nat, i);
    }
}

/// Both ends of every edge are nodes.
pub open spec fn edges_join(nodes: Seq<NodeView>, edges: Seq<EdgeView>) -> bool {
    forall|i: int|
        0 <= i < edges.len() ==> node_ids(nodes).contains((#[trigger] edges[i]).from_node)
            && node_ids(nodes).contains(edges[i].to_node)
}

proof fn lemma_id_at(nodes: Seq<NodeView>, i: int)
    requires
        0 <= i < nodes.len(),
    ensures
        node_ids(nodes).contains(nodes[i].id),
{
    assert(node_ids(nodes)[i] == nodes[i].id);
}

proof fn lemma_connect(before: Wiring, read: Reading, from: Seq<char>, output: nat, target: JsonView)
    requires
        read.nodes.len() == read.names.len(),
        edges_join(read.nodes, before.edges),
    ensures
        edges_join(read.nodes, connect(before, read, from, output, target).edges),
{
    let to = target.text_or_empty("node"@);
    lemma_last_named(read.names, from);
    lemma_last_named(read.names, to);
    if last_named(read.names, from) is Some && last_named(read.names, to) is Some {
        lemma_id_at(read.nodes, last_named(read.names, from)->0);
        lemma_id_at(read.nodes, last_named(read.names, to)->0);
    }
}

proof fn lemma_connect_targets(
    before: Wiring,
    read: Reading,
    from: Seq<char>,
    output: nat,
    targets: Seq<JsonView>,
    n: nat,
)
    requires
        read.nodes.len() == read.names.len(),
        edges_join(read.nodes, before.edges),
    ensures
        edges_join(
            read.nodes,
            connect_targets(before, read, from, output, targets, n).edges,
        ),
    decreases n,
{
    if n > 0 {
        lemma_connect_targets(before, read, from, output, targets, (n - 1) as nat);
        lemma_connect(
            connect_targets(before, read, from, output, targets, (n - 1) as nat),
            read,
            from,
            output,
            targets[n - 1],
        );
    }
}

proof fn lemma_connect_outputs(
    before: Wiring,
    read: Reading,
    from: Seq<char>,
    outputs: Seq<JsonView>,
    n: nat,
)
    requires
        read.nodes.len() == read.names.len(),
        edges_join(read.nodes, before.edges),
    ensures
        edges_join(read.nodes, connect_outputs(before, read, from, outputs, n).edges),
    decreases n,
{
    if n > 0 {
        lemma_connect_outputs(before, read, from, outputs, (n - 1) as nat);
        let targets = items_of(outputs[n - 1]);
        lemma_connect_targets(
            connect_outputs(before, read, from, outputs, (n - 1) as nat),
            read,
            from,
            (n - 1) as nat,
            targets,
            targets.len(),
        );
    }
}

proof fn lemma_connect_all(read: Reading, connections: Seq<(Seq<char>, JsonView)>, n: nat)
    requires
        read.nodes.len() == read.names.len(),
    ensures
        edges_join(read.nodes, connect_all(read, connections, n).edges),
    decreases n,
{
    if n > 0 {
        lemma_connect_all(read, connections, (n - 1) as nat);
        let outputs = items_of(connections[n - 1].1.at("main"@));
        lemma_connect_outputs(
            connect_all(read, connections, (n - 1) as nat),
            read,
            connections[n - 1].0,
            outputs,
            outputs.len(),
        );
    }
}

proof fn lemma_roots(nodes: Seq<NodeView>, edges: Seq<EdgeView>, n: nat)
    requires
        n <= nodes.len(),
    ensures
        forall|i: int|
            0 <= i < roots(nodes, edges, n).len() ==> node_ids(nodes).contains(
                #[trigger] roots(nodes, edges, n)[i],
            ),
    decreases n,
{
    if n > 0 {
        let before = roots(nodes, edges, (n - 1) as nat);
        let after = roots(nodes, edges, n);
        lemma_roots(nodes, edges, (n - 1) as nat);
        lemma_id_at(nodes, n - 1);
        assert forall|i: int| 0 <= i < after.len() implies node_ids(nodes).contains(
            #[trigger] after[i],
        ) by {
            if i < before.len() {
                assert(after[i] == before[i]);
            }
        }
    }
}

/// Every edge of an import joins two imported nodes: a connection to a node
/// that is not there is dropped, never kept dangling.
pub proof fn imported_edges_join_imported_nodes(workflow: JsonView)
    ensures
        imported(workflow) matches Ok(done) ==> edges_join(done.0.nodes, done.0.edges),
{
    if imported(workflow) is Ok {
        let raw = workflow.at("nodes"@)->Array_0;
        let read = read_nodes(raw, raw.len());
        let connections = connections_of(workflow);
        let wired = connect_all(read, connections, connections.len());
        lemma_read_nodes(raw, raw.len());
        lemma_connect_all(read, connections, connections.len());
        if !read.has_trigger {
            let id = fresh_id(node_ids(read.nodes), "trigger"@);
            let starts = entries_of(read.nodes, wired.edges);
            let nodes = imported(workflow)->Ok_0.0.nodes;
            let edges = imported(workflow)->Ok_0.0.edges;
            lemma_roots(read.nodes, wired.edges, read.nodes.len());
            if read.nodes.len() > 0 {
                lemma_id_at(read.nodes, 0);
            }
            assert(nodes[0].id == id);
            lemma_id_at(nodes, 0);
            assert forall|known: Seq<char>| #[trigger]
                node_ids(read.nodes).contains(known) implies node_ids(nodes).contains(known) by {
                let k = choose|k: int|
                    0 <= k < node_ids(read.nodes).len() && node_ids(read.nodes)[k] == known;
                assert(nodes[k + 1] == read.nodes[k]);
                assert(node_ids(nodes)[k + 1] == known);
            }
            assert forall|i: int| 0 <= i < edges.len() implies node_ids(nodes).contains(
                (#[trigger] edges[i]).from_node,
            ) && node_ids(nodes).contains(edges[i].to_node) by {
                if i < wired.edges.len() {
                    assert(edges[i] == wired.edges[i]);
                } else {
                    let k = i - wired.edges.len();
                    assert(edges[i] == plain_edge(id, starts[k]));
                    assert(node_ids(read.nodes).contains(starts[k]));
                }
            }
        }
    }
}

} // verus!
