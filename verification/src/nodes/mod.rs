//! Node execution: what a node is given, what it hands back, and the scope its
//! expressions are evaluated in.
use vstd::prelude::*;

use crate::data::{all_payloads, copy_items, first_json, first_payload, payloads, Item, ItemView};
use crate::json::{array, member, members, object, set_member, with_member, Json, JsonView};
use crate::model::graph::{Node, NodeView};
use crate::store::transcript::{TranscriptEntry, TranscriptView};
use crate::text::{opt_view, same, views};

pub mod agent;
pub mod agent_laws;
pub mod approval;
pub mod approval_laws;
pub mod approval_request;
pub mod scatter;
pub mod scope_laws;

verus! {

/// A config expression that resolved to `null`.
#[derive(Debug, PartialEq, Eq)]
pub struct NullResolution {
    /// Where in the configuration it stands.
    pub location: String,
    pub expression: String,
}

#[verifier::ext_equal]
pub struct NullResolutionView {
    pub location: Seq<char>,
    pub expression: Seq<char>,
}

impl View for NullResolution {
    type V = NullResolutionView;

    open spec fn view(&self) -> NullResolutionView {
        NullResolutionView { location: self.location@, expression: self.expression@ }
    }
}

/// What went wrong while a node ran.
#[derive(Debug, PartialEq, Eq)]
pub enum EngineError {
    /// A capability failed, or a node could not be run as configured.
    Capability(String),
}

#[verifier::ext_equal]
pub enum EngineErrorView {
    Capability(Seq<char>),
}

impl View for EngineError {
    type V = EngineErrorView;

    open spec fn view(&self) -> EngineErrorView {
        match *self {
            EngineError::Capability(text) => EngineErrorView::Capability(text@),
        }
    }
}

/// The runtime context handed to a node when it executes.
pub struct NodeContext<'a> {
    /// The node being executed.
    pub node: &'a Node,
    /// The input items delivered to this node.
    pub input: &'a Vec<Item>,
    /// Run metadata and the trigger payload.
    pub run: &'a Json,
    /// Every node that has completed so far, keyed by node id.
    pub nodes: &'a Json,
    /// The lane this activation belongs to, inside a fan-out.
    pub lane: Option<LaneContext>,
    /// The value a resume delivered to this node.
    pub resume: Option<Json>,
    /// The super-step that is running this activation, counting from 0.
    pub step: usize,
}

#[verifier::ext_equal]
pub struct ContextView {
    pub node: NodeView,
    pub input: Seq<ItemView>,
    pub run: JsonView,
    pub nodes: JsonView,
    pub lane: Option<LaneView>,
    pub resume: Option<JsonView>,
    pub step: usize,
}

impl<'a> View for NodeContext<'a> {
    type V = ContextView;

    open spec fn view(&self) -> ContextView {
        ContextView {
            node: self.node@,
            input: views(self.input@),
            run: self.run@,
            nodes: self.nodes@,
            lane: opt_view(self.lane),
            resume: opt_view(self.resume),
            step: self.step,
        }
    }
}

/// Which lane of a fan-out an activation belongs to.
#[derive(Debug, PartialEq, Eq)]
pub struct LaneContext {
    /// Unique across the run.
    pub id: String,
    /// The node whose fan-out created this lane.
    pub origin: String,
    /// This lane's position in the fan-out, from 0.
    pub index: usize,
    /// How many lanes the fan-out created.
    pub count: usize,
}

#[verifier::ext_equal]
pub struct LaneView {
    pub id: Seq<char>,
    pub origin: Seq<char>,
    pub index: usize,
    pub count: usize,
}

impl View for LaneContext {
    type V = LaneView;

    open spec fn view(&self) -> LaneView {
        LaneView {
            id: self.id@,
            origin: self.origin@,
            index: self.index,
            count: self.count,
        }
    }
}

/// What a node asks the engine to do instead of simply emitting its items.
#[derive(Debug, PartialEq, Eq)]
pub enum NodeControl {
    /// Pause the whole run here, surfacing `id` on the run's pending set.
    Interrupt { id: String, payload: Json },
    /// Run this same node again after a delay.
    Reenter { after_ms: u64 },
    /// Run what follows once per lane.
    Scatter { lanes: Vec<Vec<Item>> },
}

#[verifier::ext_equal]
pub enum NodeControlView {
    Interrupt { id: Seq<char>, payload: JsonView },
    Reenter { after_ms: u64 },
    Scatter { lanes: Seq<Seq<ItemView>> },
}

/// The items of each lane.
pub open spec fn lane_views(lanes: Seq<Vec<Item>>) -> Seq<Seq<ItemView>> {
    Seq::new(lanes.len(), |i: int| views(lanes[i]@))
}

impl View for NodeControl {
    type V = NodeControlView;

    open spec fn view(&self) -> NodeControlView {
        match *self {
            NodeControl::Interrupt { id, payload } => NodeControlView::Interrupt {
                id: id@,
                payload: payload@,
            },
            NodeControl::Reenter { after_ms } => NodeControlView::Reenter { after_ms },
            NodeControl::Scatter { lanes } => NodeControlView::Scatter {
                lanes: lane_views(lanes@),
            },
        }
    }
}

/// The outcome of executing a single node.
#[derive(Debug, PartialEq, Eq)]
pub struct NodeOutput {
    /// The items this node emits.
    pub items: Vec<Item>,
    /// The output port to follow; none means `main`.
    pub port: Option<String>,
    /// Config expressions that resolved to `null`.
    pub diagnostics: Vec<NullResolution>,
    /// What agents did inside this node, in item order.
    pub transcript: Vec<TranscriptEntry>,
    /// Extra keys to record in this node's slot.
    pub meta: Option<Json>,
    /// A request for something other than to emit and move on.
    pub control: Option<NodeControl>,
}

#[verifier::ext_equal]
pub struct NodeOutputView {
    pub items: Seq<ItemView>,
    pub port: Option<Seq<char>>,
    pub diagnostics: Seq<NullResolutionView>,
    pub transcript: Seq<TranscriptView>,
    pub meta: Option<JsonView>,
    pub control: Option<NodeControlView>,
}

impl View for NodeOutput {
    type V = NodeOutputView;

    open spec fn view(&self) -> NodeOutputView {
        NodeOutputView {
            items: views(self.items@),
            port: opt_view(self.port),
            diagnostics: views(self.diagnostics@),
            transcript: views(self.transcript@),
            meta: opt_view(self.meta),
            control: opt_view(self.control),
        }
    }
}

/// An output on the default port.
pub open spec fn main_output(items: Seq<ItemView>) -> NodeOutputView {
    NodeOutputView {
        items,
        port: None,
        diagnostics: Seq::empty(),
        transcript: Seq::empty(),
        meta: None,
        control: None,
    }
}

impl NodeOutput {
    /// An output on the default port.
    pub fn main(items: Vec<Item>) -> (r: Self)
        ensures
            r@ == main_output(views(items@)),
    {
        let r = NodeOutput {
            items,
            port: None,
            diagnostics: Vec::new(),
            transcript: Vec::new(),
            meta: None,
            control: None,
        };
        assert(r@.diagnostics =~= Seq::empty());
        assert(r@.transcript =~= Seq::empty());
        r
    }

    /// An output that routes to the named port.
    pub fn routed(items: Vec<Item>, port: &str) -> (r: Self)
        ensures
            r@ == (NodeOutputView { port: Some(port@), ..main_output(views(items@)) }),
    {
        let mut r = NodeOutput::main(items);
        r.port = Some(port.to_owned());
        r
    }

    /// An output with no items.
    pub fn empty() -> (r: Self)
        ensures
            r@ == main_output(Seq::empty()),
    {
        let r = NodeOutput::main(Vec::new());
        assert(r@.items =~= Seq::empty());
        r
    }

    /// This output with its diagnostics.
    pub fn with_diagnostics(self, diagnostics: Vec<NullResolution>) -> (r: Self)
        ensures
            r@ == (NodeOutputView { diagnostics: views(diagnostics@), ..self@ }),
    {
        let mut out = self;
        out.diagnostics = diagnostics;
        out
    }

    /// This output with what agents did inside the node.
    pub fn with_transcript(self, transcript: Vec<TranscriptEntry>) -> (r: Self)
        ensures
            r@ == (NodeOutputView { transcript: views(transcript@), ..self@ }),
    {
        let mut out = self;
        out.transcript = transcript;
        out
    }

    /// This output with extra slot keys.
    pub fn with_meta(self, meta: Json) -> (r: Self)
        ensures
            r@ == (NodeOutputView { meta: Some(meta@), ..self@ }),
    {
        let mut out = self;
        out.meta = Some(meta);
        out
    }

    /// This output with a control request.
    pub fn with_control(self, control: NodeControl) -> (r: Self)
        ensures
            r@ == (NodeOutputView { control: Some(control@), ..self@ }),
    {
        let mut out = self;
        out.control = Some(control);
        out
    }

    /// An output that pauses the run.
    pub fn interrupt(id: &str, payload: Json) -> (r: Self)
        ensures
            r@ == (NodeOutputView {
                control: Some(NodeControlView::Interrupt { id: id@, payload: payload@ }),
                ..main_output(Seq::empty())
            }),
    {
        NodeOutput::empty().with_control(NodeControl::Interrupt { id: id.to_owned(), payload })
    }

    /// An output that commits `meta` and asks to be run again after a delay.
    pub fn reenter_after(after_ms: u64, meta: Json) -> (r: Self)
        ensures
            r@ == (NodeOutputView {
                meta: Some(meta@),
                control: Some(NodeControlView::Reenter { after_ms }),
                ..main_output(Seq::empty())
            }),
    {
        NodeOutput::empty().with_meta(meta).with_control(NodeControl::Reenter { after_ms })
    }

    /// An output that opens lanes and commits `meta`.
    pub fn scatter(lanes: Vec<Vec<Item>>, meta: Json) -> (r: Self)
        ensures
            r@ == (NodeOutputView {
                meta: Some(meta@),
                control: Some(NodeControlView::Scatter { lanes: lane_views(lanes@) }),
                ..main_output(Seq::empty())
            }),
    {
        NodeOutput::empty().with_meta(meta).with_control(NodeControl::Scatter { lanes })
    }
}

/// The `trigger` node: what seeds a run passes through it unchanged.
#[derive(Debug, Clone, Copy, PartialEq, Eq, Default)]
pub struct TriggerNode;

impl TriggerNode {
    /// Hands the input on, on the default port.
    pub fn execute(&self, ctx: &NodeContext) -> (r: Result<NodeOutput, EngineError>)
        ensures
            r matches Ok(out) && out@ == main_output(ctx@.input),
    {
        Ok(NodeOutput::main(copy_items(ctx.input.as_slice())))
    }
}

/// How a capability node maps over its input items.
#[derive(Debug, Clone, Copy, PartialEq, Eq, Structural)]
pub enum ExecutionMode {
    /// One invocation, against the first item.
    Once,
    /// One invocation per input item.
    PerItem,
}

/// The mode a configuration asks for, and else the default.
pub open spec fn mode_of(config: JsonView, default: ExecutionMode) -> ExecutionMode {
    if config.text_at("execution"@) == Some("per_item"@) {
        ExecutionMode::PerItem
    } else if config.text_at("execution"@) == Some("once"@) {
        ExecutionMode::Once
    } else {
        default
    }
}

/// Reads the mode a configuration asks for, falling back to `default` where it
/// asks for none that is known.
pub fn execution_mode(config: &Json, default: ExecutionMode) -> (r: ExecutionMode)
    ensures
        r == mode_of(config@, default),
{
    match config.text_at("execution") {
        Some(mode) => {
            if same(mode, "per_item") {
                ExecutionMode::PerItem
            } else if same(mode, "once") {
                ExecutionMode::Once
            } else {
                default
            }
        },
        None => default,
    }
}

/// How many items of a batch run at a time.
#[derive(Debug, Clone, Copy, PartialEq, Eq, Structural)]
pub enum Concurrency {
    AtMost(u64),
    All,
}

/// How many items a configuration lets run at a time: one after the other,
/// unless it says otherwise.
pub open spec fn concurrency_of(config: JsonView) -> Concurrency {
    match config.get("concurrency"@) {
        Some(asked) => match asked.as_u64() {
            Some(n) => Concurrency::AtMost(n),
            None => if asked.as_str() == Some("all"@) {
                Concurrency::All
            } else {
                Concurrency::AtMost(1)
            },
        },
        None => Concurrency::AtMost(1),
    }
}

/// Reads how many items of a batch run at a time.
pub fn concurrency(config: &Json) -> (r: Concurrency)
    ensures
        r == concurrency_of(config@),
{
    match config.get("concurrency") {
        Some(asked) => match asked.as_u64() {
            Some(n) => Concurrency::AtMost(n),
            None => match asked.as_str() {
                Some(text) => if same(text, "all") {
                    Concurrency::All
                } else {
                    Concurrency::AtMost(1)
                },
                None => Concurrency::AtMost(1),
            },
        },
        None => Concurrency::AtMost(1),
    }
}

/// What an item that fails does to the batch it runs in.
#[derive(Debug, Clone, Copy, PartialEq, Eq, Structural)]
pub enum OnItemError {
    /// It stays in the batch, as a failure.
    Collect,
    /// It is dropped.
    Skip,
    /// It fails the node.
    FailFast,
}

/// What a configuration says of items that fail, where it names a known policy.
pub open spec fn on_item_error_of(config: JsonView) -> Option<OnItemError> {
    if config.text_at("on_item_error"@) == Some("collect"@) {
        Some(OnItemError::Collect)
    } else if config.text_at("on_item_error"@) == Some("skip"@) {
        Some(OnItemError::Skip)
    } else if config.text_at("on_item_error"@) == Some("fail_fast"@) {
        Some(OnItemError::FailFast)
    } else {
        None
    }
}

/// Reads what a configuration says of items that fail.
pub fn on_item_error(config: &Json) -> (r: Option<OnItemError>)
    ensures
        r == on_item_error_of(config@),
{
    match config.text_at("on_item_error") {
        Some(policy) => if same(policy, "collect") {
            Some(OnItemError::Collect)
        } else if same(policy, "skip") {
            Some(OnItemError::Skip)
        } else if same(policy, "fail_fast") {
            Some(OnItemError::FailFast)
        } else {
            None
        },
        None => None,
    }
}

/// The payloads of serialized items.
pub open spec fn slot_payloads(items: Seq<JsonView>) -> Seq<JsonView> {
    Seq::new(items.len(), |i: int| items[i].at("json"@))
}

pub open spec fn first_of(values: Seq<JsonView>) -> JsonView {
    if values.len() > 0 {
        values[0]
    } else {
        JsonView::Null
    }
}

/// What expressions see of a completed node: its first payload, all of them,
/// and its pass count where it keeps one.
pub open spec fn slot_scope(slot: JsonView, items: Seq<JsonView>) -> JsonView {
    let jsons = slot_payloads(items);
    let base = seq![("item"@, first_of(jsons)), ("items"@, JsonView::Array(jsons))];
    match slot.get("iteration"@) {
        Some(iteration) => JsonView::Object(base.push(("iteration"@, iteration))),
        None => JsonView::Object(base),
    }
}

/// The completed nodes among the first `n` slots, as expressions see them; a
/// slot without items is left out.
pub open spec fn slots_scope(slots: Seq<(Seq<char>, JsonView)>, n: nat) -> Seq<
    (Seq<char>, JsonView),
>
    decreases n,
{
    if n == 0 {
        Seq::empty()
    } else {
        let rest = slots_scope(slots, (n - 1) as nat);
        let (id, slot) = slots[n - 1];
        match slot.at("items"@).as_array() {
            Some(items) => with_member(rest, id, slot_scope(slot, items)),
            None => rest,
        }
    }
}

/// The completed nodes as expressions see them.
pub open spec fn nodes_scope_of(nodes: JsonView) -> JsonView {
    match nodes {
        JsonView::Object(slots) => JsonView::Object(slots_scope(slots, slots.len())),
        _ => JsonView::Object(Seq::empty()),
    }
}

fn slot_entry(slot: &Json, items: &Vec<Json>) -> (r: Json)
    ensures
        r@ == slot_scope(slot@, views(items@)),
{
    let ghost raw = views(items@);
    let mut jsons: Vec<Json> = Vec::new();
    let mut i: usize = 0;
    while i < items.len()
        invariant
            i <= items@.len(),
            raw == views(items@),
            jsons@.len() == i,
            forall|k: int| 0 <= k < i ==> (#[trigger] jsons@[k])@ == raw[k].at("json"@),
        decreases items@.len() - i,
    {
        assert(raw[i as int] == items@[i as int]@);
        jsons.push(items[i].at("json"));
        i = i + 1;
    }
    assert(views(jsons@) =~= slot_payloads(raw));
    let first = if jsons.len() > 0 {
        assert(views(jsons@)[0] == jsons@[0]@);
        jsons[0].clone()
    } else {
        Json::Null
    };
    let mut entries: Vec<(String, Json)> = Vec::new();
    entries.push(member("item", first));
    entries.push(member("items", array(jsons)));
    let ghost base = seq![
        ("item"@, first_of(slot_payloads(raw))),
        ("items"@, JsonView::Array(slot_payloads(raw))),
    ];
    assert(members(entries@) =~= base);
    match slot.get("iteration") {
        Some(iteration) => {
            entries.push(member("iteration", iteration.clone()));
            assert(members(entries@) =~= base.push(("iteration"@, iteration@)));
        },
        None => {},
    }
    object(entries)
}

/// Projects the run state's nodes into what expressions see: each completed
/// node's first payload and all of them, keyed by node id.
pub fn nodes_scope(nodes: &Json) -> (r: Json)
    ensures
        r@ == nodes_scope_of(nodes@),
{
    let mut scope: Vec<(String, Json)> = Vec::new();
    match nodes.as_object() {
        Some(slots) => {
            let ghost all = members(slots@);
            let mut i: usize = 0;
            assert(members(scope@) =~= slots_scope(all, 0));
            while i < slots.len()
                invariant
                    i <= slots@.len(),
                    all == members(slots@),
                    members(scope@) == slots_scope(all, i as nat),
                decreases slots@.len() - i,
            {
                let slot = &slots[i].1;
                assert(all[i as int] == (slots@[i as int].0@, slot@));
                let items = match slot.get("items") {
                    Some(value) => value.as_array(),
                    None => None,
                };
                match items {
                    Some(items) => {
                        let entry = slot_entry(slot, items);
                        set_member(&mut scope, slots[i].0.as_str(), entry);
                    },
                    None => {},
                }
                i = i + 1;
            }
        },
        None => {
            assert(members(scope@) =~= Seq::empty());
        },
    }
    object(scope)
}

/// The object that expressions are evaluated against.
pub open spec fn scope_of(
    item: JsonView,
    items: Seq<JsonView>,
    run: JsonView,
    nodes: JsonView,
) -> JsonView {
    JsonView::Object(
        seq![
            ("item"@, item),
            ("items"@, JsonView::Array(items)),
            ("run"@, run),
            ("nodes"@, nodes),
            ("inputs"@, run.at("inputs"@)),
        ],
    )
}

/// The one constructor of an expression scope: the current item, all items,
/// the run, the completed nodes, and the run's declared inputs.
pub fn build_expr_scope(item: Json, items: Vec<Json>, run: &Json, nodes: Json) -> (r: Json)
    ensures
        r@ == scope_of(item@, views(items@), run@, nodes@),
{
    let ghost shown = scope_of(item@, views(items@), run@, nodes@)->Object_0;
    let mut entries: Vec<(String, Json)> = Vec::new();
    entries.push(member("item", item));
    entries.push(member("items", array(items)));
    entries.push(member("run", run.clone()));
    entries.push(member("nodes", nodes));
    entries.push(member("inputs", run.at("inputs")));
    assert(members(entries@) =~= shown);
    object(entries)
}

/// The scope of a node whose current item has the given payload.
pub fn expr_scope_for(ctx: &NodeContext, item: Json) -> (r: Json)
    ensures
        r@ == scope_of(item@, payloads(ctx@.input), ctx@.run, nodes_scope_of(ctx@.nodes)),
{
    let items = all_payloads(ctx.input.as_slice());
    build_expr_scope(item, items, ctx.run, nodes_scope(ctx.nodes))
}

/// The scope of a node: its current item is the first of its input.
pub fn expr_scope(ctx: &NodeContext) -> (r: Json)
    ensures
        r@ == scope_of(
            first_json(ctx@.input),
            payloads(ctx@.input),
            ctx@.run,
            nodes_scope_of(ctx@.nodes),
        ),
{
    let item = first_payload(ctx.input.as_slice());
    expr_scope_for(ctx, item)
}

} // verus!
