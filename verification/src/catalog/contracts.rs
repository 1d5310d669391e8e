//! The contracts of the node kinds: what each is for, which configuration it
//! reads, and which ports it has. Those of the kinds that open and collect
//! lanes are written here.
//!
//! Whoever writes a graph, a person or a model, writes it against these.
use vstd::prelude::*;

use crate::json::{array, count_json, member, members, object, text_json, Json, JsonView, NumberView};
use crate::text::views;

verus! {

/// One field a node reads from its configuration.
#[derive(Debug, PartialEq, Eq)]
pub struct ConfigField {
    pub name: String,
    pub value_type: String,
    pub required: bool,
    pub description: String,
    /// The values allowed, where only some are.
    pub enum_values: Option<Vec<String>>,
}

#[verifier::ext_equal]
pub struct FieldView {
    pub name: Seq<char>,
    pub value_type: Seq<char>,
    pub required: bool,
    pub description: Seq<char>,
    pub enum_values: Option<Seq<Seq<char>>>,
}

impl View for ConfigField {
    type V = FieldView;

    open spec fn view(&self) -> FieldView {
        FieldView {
            name: self.name@,
            value_type: self.value_type@,
            required: self.required,
            description: self.description@,
            enum_values: match self.enum_values {
                Some(values) => Some(views(values@)),
                None => None,
            },
        }
    }
}

/// A field that may be left out.
pub open spec fn field(
    name: Seq<char>,
    value_type: Seq<char>,
    description: Seq<char>,
) -> FieldView {
    FieldView { name, value_type, required: false, description, enum_values: None }
}

/// A field that has to be there.
pub open spec fn need(
    name: Seq<char>,
    value_type: Seq<char>,
    description: Seq<char>,
) -> FieldView {
    FieldView { name, value_type, required: true, description, enum_values: None }
}

impl FieldView {
    /// The field, with the values it allows.
    pub open spec fn among(self, values: Seq<Seq<char>>) -> FieldView {
        FieldView { enum_values: Some(values), ..self }
    }
}

/// The texts of borrowed texts.
pub open spec fn texts(items: Seq<&str>) -> Seq<Seq<char>> {
    Seq::new(items.len(), |i: int| items[i]@)
}

fn owned(items: &[&str]) -> (r: Vec<String>)
    ensures
        views(r@) == texts(items@),
{
    let mut copies: Vec<String> = Vec::new();
    let mut i: usize = 0;
    while i < items.len()
        invariant
            i <= items@.len(),
            copies@.len() == i,
            forall|k: int| 0 <= k < i ==> (#[trigger] copies@[k])@ == items@[k]@,
        decreases items@.len() - i,
    {
        copies.push(items[i].to_owned());
        i = i + 1;
    }
    assert(views(copies@) =~= texts(items@));
    copies
}

impl ConfigField {
    /// A field that has to be there.
    pub fn required(name: &str, value_type: &str, description: &str) -> (r: Self)
        ensures
            r@ == need(name@, value_type@, description@),
    {
        ConfigField {
            name: name.to_owned(),
            value_type: value_type.to_owned(),
            required: true,
            description: description.to_owned(),
            enum_values: None,
        }
    }

    /// A field that may be left out.
    pub fn optional(name: &str, value_type: &str, description: &str) -> (r: Self)
        ensures
            r@ == field(name@, value_type@, description@),
    {
        ConfigField {
            name: name.to_owned(),
            value_type: value_type.to_owned(),
            required: false,
            description: description.to_owned(),
            enum_values: None,
        }
    }

    /// The field, with the values it allows.
    pub fn with_enum(self, values: &[&str]) -> (r: Self)
        ensures
            r@ == self@.among(texts(values@)),
    {
        let mut out = self;
        out.enum_values = Some(owned(values));
        out
    }
}

/// The ports of a node.
#[derive(Debug, PartialEq, Eq)]
pub struct PortSpec {
    pub inputs: Vec<String>,
    pub outputs: Vec<String>,
}

#[verifier::ext_equal]
pub struct PortView {
    pub inputs: Seq<Seq<char>>,
    pub outputs: Seq<Seq<char>>,
}

impl View for PortSpec {
    type V = PortView;

    open spec fn view(&self) -> PortView {
        PortView { inputs: views(self.inputs@), outputs: views(self.outputs@) }
    }
}

impl PortSpec {
    /// The ports of the given names.
    pub fn new(inputs: &[&str], outputs: &[&str]) -> (r: Self)
        ensures
            r@ == (PortView { inputs: texts(inputs@), outputs: texts(outputs@) }),
    {
        PortSpec { inputs: owned(inputs), outputs: owned(outputs) }
    }
}

/// What is promised of one node kind.
#[derive(Debug, PartialEq, Eq)]
pub struct NodeKindContract {
    pub kind: String,
    pub summary: String,
    pub description: String,
    pub config_fields: Vec<ConfigField>,
    pub ports: PortSpec,
    /// A node of this kind, as a graph holds it.
    pub example: Json,
    pub notes: Vec<String>,
}

#[verifier::ext_equal]
pub struct ContractView {
    pub kind: Seq<char>,
    pub summary: Seq<char>,
    pub description: Seq<char>,
    pub config_fields: Seq<FieldView>,
    pub ports: PortView,
    pub example: JsonView,
    pub notes: Seq<Seq<char>>,
}

impl View for NodeKindContract {
    type V = ContractView;

    open spec fn view(&self) -> ContractView {
        ContractView {
            kind: self.kind@,
            summary: self.summary@,
            description: self.description@,
            config_fields: views(self.config_fields@),
            ports: self.ports@,
            example: self.example@,
            notes: views(self.notes@),
        }
    }
}

/// The contract of a `scatter` node.
pub open spec fn scatter_contract() -> ContractView {
    ContractView {
        kind: "scatter"@,
        summary: "Fans the DOWNSTREAM PATH out into parallel lanes — every node between here and the matching `gather` runs once per lane."@,
        description: "Different from an ordinary fan-out, which runs each SUCCESSOR once. Drawing two edges from one port runs both successors concurrently; a scatter runs the whole pipeline once per lane, so scatter -> enrich -> score -> gather over 8 items becomes 8 concurrent three-node pipelines. Use it when per-item work spans several nodes; for per-item work inside ONE node, that node's own `concurrency` is simpler."@,
        config_fields: seq![
            field("path"@, "string"@, "Dotted path to an array in the first input item to fan out over (like split_out). Without it, the node's own input items are the lanes."@),
            field("lanes"@, "number"@, "Chunk the work into at most this many lanes instead of one per item (clamped to 256). A 1000-item input can then run 8 wide rather than 1000 wide without pre-chunking."@),
        ],
        ports: PortView { inputs: seq!["main"@], outputs: seq!["main"@] },
        example: JsonView::Object(seq![("id"@, JsonView::String("fan"@)), ("kind"@, JsonView::String("scatter"@)), ("name"@, JsonView::String("One lane per repo"@)), ("config"@, JsonView::Object(seq![("path"@, JsonView::String("repos"@)), ("lanes"@, JsonView::Number(NumberView::PosInt(8)))]))]),
        notes: seq![
            "Must reach a `gather`, and every node in between must have a path onward to it. A lane that dead-ends is not merely uncollected — a lane activation never writes the node's top-level slot, so its output is invisible."@,
            "Lane workers expose \"=nodes.<id>.lanes.<lane>\", NOT \"=nodes.<id>.item\": inside a region there is no single value for that node. Read the gather's aggregated output instead."@,
            "Not supported inside a lane (each refused by validation): a nested `scatter`, a `loop` head, or `requires_approval`. The last because a resume is addressed by node id, so every lane would share one approval."@,
            "`max_node_visits` is charged PER LANE ACTIVATION, so a wide scatter needs headroom on that and on `recursion_limit`."@,
        ],
    }
}

/// The contract of a `scatter` node.
pub fn contract_scatter() -> (r: NodeKindContract)
    ensures
        r@ == scatter_contract(),
{
    let mut config_fields: Vec<ConfigField> = Vec::new();
    config_fields.push(ConfigField::optional("path", "string", "Dotted path to an array in the first input item to fan out over (like split_out). Without it, the node's own input items are the lanes."));
    config_fields.push(ConfigField::optional("lanes", "number", "Chunk the work into at most this many lanes instead of one per item (clamped to 256). A 1000-item input can then run 8 wide rather than 1000 wide without pre-chunking."));
    assert(views(config_fields@) =~= scatter_contract().config_fields);
    let inputs = ["main"];
    let outputs = ["main"];
    let ports = PortSpec::new(&inputs, &outputs);
    assert(ports@.inputs =~= scatter_contract().ports.inputs);
    assert(ports@.outputs =~= scatter_contract().ports.outputs);
    let mut config: Vec<(String, Json)> = Vec::new();
    config.push(member("path", text_json("repos")));
    config.push(member("lanes", count_json(8)));
    assert(members(config@) =~= JsonView::Object(seq![("path"@, JsonView::String("repos"@)), ("lanes"@, JsonView::Number(NumberView::PosInt(8)))])->Object_0);
    let mut entries: Vec<(String, Json)> = Vec::new();
    entries.push(member("id", text_json("fan")));
    entries.push(member("kind", text_json("scatter")));
    entries.push(member("name", text_json("One lane per repo")));
    entries.push(member("config", object(config)));
    assert(members(entries@) =~= scatter_contract().example->Object_0);
    let example = object(entries);
    let mut notes: Vec<String> = Vec::new();
    notes.push("Must reach a `gather`, and every node in between must have a path onward to it. A lane that dead-ends is not merely uncollected — a lane activation never writes the node's top-level slot, so its output is invisible.".to_owned());
    notes.push("Lane workers expose \"=nodes.<id>.lanes.<lane>\", NOT \"=nodes.<id>.item\": inside a region there is no single value for that node. Read the gather's aggregated output instead.".to_owned());
    notes.push("Not supported inside a lane (each refused by validation): a nested `scatter`, a `loop` head, or `requires_approval`. The last because a resume is addressed by node id, so every lane would share one approval.".to_owned());
    notes.push("`max_node_visits` is charged PER LANE ACTIVATION, so a wide scatter needs headroom on that and on `recursion_limit`.".to_owned());
    assert(views(notes@) =~= scatter_contract().notes);
    NodeKindContract {
        kind: "scatter".to_owned(),
        summary: "Fans the DOWNSTREAM PATH out into parallel lanes — every node between here and the matching `gather` runs once per lane.".to_owned(),
        description: "Different from an ordinary fan-out, which runs each SUCCESSOR once. Drawing two edges from one port runs both successors concurrently; a scatter runs the whole pipeline once per lane, so scatter -> enrich -> score -> gather over 8 items becomes 8 concurrent three-node pipelines. Use it when per-item work spans several nodes; for per-item work inside ONE node, that node's own `concurrency` is simpler.".to_owned(),
        config_fields,
        ports,
        example,
        notes,
    }
}

/// The contract of a `gather` node.
pub open spec fn gather_contract() -> ContractView {
    ContractView {
        kind: "gather"@,
        summary: "Collects the lanes a `scatter` opened, on a release policy."@,
        description: "Not a topological barrier. A `merge` waits for its declared predecessors — a static fact about the graph — but how many lanes exist is decided at run time from data, so a gather counts arrivals against the lane count the scatter recorded and re-checks until its release policy is satisfied. That is also why it supports the same policies as `gate`: once waiting is a decision rather than a topological fact, \"proceed on a quorum\" becomes expressible."@,
        config_fields: seq![
            need("from"@, "array"@, "Ids of the lane-terminal nodes whose lane slots to collect — the last node of the lane body."@),
            field("release"@, "enum"@, "When to proceed: all (default) | any | first_n | quorum | timeout_partial."@).among(seq!["all"@, "any"@, "first_n"@, "quorum"@, "timeout_partial"@]),
            field("n"@, "number"@, "Required (and > 0) for first_n and quorum."@),
            field("on_lane_error"@, "enum"@, "collect (default: a failed lane becomes an item with {failed, error, lane}) | skip (drop it) | fail_fast (fail the gather)."@).among(seq!["collect"@, "skip"@, "fail_fast"@]),
            field("poll_interval_ms"@, "number"@, "Gap between checks (default 5)."@),
            field("max_polls"@, "number"@, "Check budget before the wait is called spent (default 500). Each check costs a super-step."@),
        ],
        ports: PortView { inputs: seq!["main"@], outputs: seq!["main"@, "error"@] },
        example: JsonView::Object(seq![("id"@, JsonView::String("collect"@)), ("kind"@, JsonView::String("gather"@)), ("name"@, JsonView::String("Collect the lanes"@)), ("config"@, JsonView::Object(seq![("from"@, JsonView::Array(seq![JsonView::String("score"@)])), ("release"@, JsonView::String("all"@)), ("on_lane_error"@, JsonView::String("collect"@))]))]),
        notes: seq![
            "Output is ordered by LANE INDEX, not by which lane finished first, and each item keeps its lane index as `paired_item`. Two runs therefore emit the same order whatever the timing."@,
            "A partial release (any / first_n / quorum) leaves the remaining lanes running; their results are simply not collected."@,
        ],
    }
}

/// The contract of a `gather` node.
pub fn contract_gather() -> (r: NodeKindContract)
    ensures
        r@ == gather_contract(),
{
    let mut config_fields: Vec<ConfigField> = Vec::new();
    config_fields.push(ConfigField::required("from", "array", "Ids of the lane-terminal nodes whose lane slots to collect — the last node of the lane body."));
    let values = ["all", "any", "first_n", "quorum", "timeout_partial"];
    assert(texts(values@) =~= seq!["all"@, "any"@, "first_n"@, "quorum"@, "timeout_partial"@]);
    config_fields.push(
        ConfigField::optional("release", "enum", "When to proceed: all (default) | any | first_n | quorum | timeout_partial.").with_enum(&values),
    );
    config_fields.push(ConfigField::optional("n", "number", "Required (and > 0) for first_n and quorum."));
    let values = ["collect", "skip", "fail_fast"];
    assert(texts(values@) =~= seq!["collect"@, "skip"@, "fail_fast"@]);
    config_fields.push(
        ConfigField::optional("on_lane_error", "enum", "collect (default: a failed lane becomes an item with {failed, error, lane}) | skip (drop it) | fail_fast (fail the gather).").with_enum(&values),
    );
    config_fields.push(ConfigField::optional("poll_interval_ms", "number", "Gap between checks (default 5)."));
    config_fields.push(ConfigField::optional("max_polls", "number", "Check budget before the wait is called spent (default 500). Each check costs a super-step."));
    assert(views(config_fields@) =~= gather_contract().config_fields);
    let inputs = ["main"];
    let outputs = ["main", "error"];
    let ports = PortSpec::new(&inputs, &outputs);
    assert(ports@.inputs =~= gather_contract().ports.inputs);
    assert(ports@.outputs =~= gather_contract().ports.outputs);
    let mut config: Vec<(String, Json)> = Vec::new();
    let mut list: Vec<Json> = Vec::new();
    list.push(text_json("score"));
    assert(views(list@) =~= JsonView::Array(seq![JsonView::String("score"@)])->Array_0);
    config.push(member("from", array(list)));
    config.push(member("release", text_json("all")));
    config.push(member("on_lane_error", text_json("collect")));
    assert(members(config@) =~= JsonView::Object(seq![("from"@, JsonView::Array(seq![JsonView::String("score"@)])), ("release"@, JsonView::String("all"@)), ("on_lane_error"@, JsonView::String("collect"@))])->Object_0);
    let mut entries: Vec<(String, Json)> = Vec::new();
    entries.push(member("id", text_json("collect")));
    entries.push(member("kind", text_json("gather")));
    entries.push(member("name", text_json("Collect the lanes")));
    entries.push(member("config", object(config)));
    assert(members(entries@) =~= gather_contract().example->Object_0);
    let example = object(entries);
    let mut notes: Vec<String> = Vec::new();
    notes.push("Output is ordered by LANE INDEX, not by which lane finished first, and each item keeps its lane index as `paired_item`. Two runs therefore emit the same order whatever the timing.".to_owned());
    notes.push("A partial release (any / first_n / quorum) leaves the remaining lanes running; their results are simply not collected.".to_owned());
    assert(views(notes@) =~= gather_contract().notes);
    NodeKindContract {
        kind: "gather".to_owned(),
        summary: "Collects the lanes a `scatter` opened, on a release policy.".to_owned(),
        description: "Not a topological barrier. A `merge` waits for its declared predecessors — a static fact about the graph — but how many lanes exist is decided at run time from data, so a gather counts arrivals against the lane count the scatter recorded and re-checks until its release policy is satisfied. That is also why it supports the same policies as `gate`: once waiting is a decision rather than a topological fact, \"proceed on a quorum\" becomes expressible.".to_owned(),
        config_fields,
        ports,
        example,
        notes,
    }
}

/// The contracts of every node kind: the given ones, and those of the two kinds
/// that open and collect lanes.
pub open spec fn every_contract(others: Seq<ContractView>) -> Seq<ContractView> {
    others + seq![scatter_contract(), gather_contract()]
}

/// The contracts of every node kind. `others` are those of the kinds that
/// neither open nor collect lanes, from whoever runs them.
pub fn all_contracts(others: Vec<NodeKindContract>) -> (r: Vec<NodeKindContract>)
    ensures
        views(r@) == every_contract(views(others@)),
{
    let mut all = others;
    all.push(contract_scatter());
    all.push(contract_gather());
    assert(views(all@) =~= every_contract(views(others@)));
    all
}

} // verus!
