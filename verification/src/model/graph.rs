//! Workflow graphs: nodes, edges and declared inputs.
use vstd::prelude::*;

use crate::json::{Json, JsonView, Number, NumberView};
use crate::model::agent::{AgentDefinition, AgentDefinitionView};
use crate::text::{chars_of, opt_view, same, views};

verus! {

/// What a node does.
#[derive(Debug, Clone, Copy, PartialEq, Eq, Structural)]
pub enum NodeKind {
    Trigger,
    Agent,
    ToolCall,
    HttpRequest,
    Code,
    Shell,
    OutputParser,
    SubWorkflow,
    Memory,
    Condition,
    Switch,
    Merge,
    SplitOut,
    Transform,
    Dedup,
    Spawn,
    Gate,
    Loop,
    Void,
    Approval,
    Scatter,
    Gather,
}

/// The name a kind has in a graph's JSON.
pub open spec fn kind_text(kind: NodeKind) -> Seq<char> {
    match kind {
        NodeKind::Trigger => "trigger"@,
        NodeKind::Agent => "agent"@,
        NodeKind::ToolCall => "tool_call"@,
        NodeKind::HttpRequest => "http_request"@,
        NodeKind::Code => "code"@,
        NodeKind::Shell => "shell"@,
        NodeKind::OutputParser => "output_parser"@,
        NodeKind::SubWorkflow => "sub_workflow"@,
        NodeKind::Memory => "memory"@,
        NodeKind::Condition => "condition"@,
        NodeKind::Switch => "switch"@,
        NodeKind::Merge => "merge"@,
        NodeKind::SplitOut => "split_out"@,
        NodeKind::Transform => "transform"@,
        NodeKind::Dedup => "dedup"@,
        NodeKind::Spawn => "spawn"@,
        NodeKind::Gate => "gate"@,
        NodeKind::Loop => "loop"@,
        NodeKind::Void => "void"@,
        NodeKind::Approval => "approval"@,
        NodeKind::Scatter => "scatter"@,
        NodeKind::Gather => "gather"@,
    }
}

/// The name a kind has in a graph's JSON (`tool_call`, `sub_workflow`, …), for
/// use in error messages.
pub fn kind_name(kind: &NodeKind) -> (r: &'static str)
    ensures
        r@ == kind_text(*kind),
{
    match kind {
        NodeKind::Trigger => "trigger",
        NodeKind::Agent => "agent",
        NodeKind::ToolCall => "tool_call",
        NodeKind::HttpRequest => "http_request",
        NodeKind::Code => "code",
        NodeKind::Shell => "shell",
        NodeKind::OutputParser => "output_parser",
        NodeKind::SubWorkflow => "sub_workflow",
        NodeKind::Memory => "memory",
        NodeKind::Condition => "condition",
        NodeKind::Switch => "switch",
        NodeKind::Merge => "merge",
        NodeKind::SplitOut => "split_out",
        NodeKind::Transform => "transform",
        NodeKind::Dedup => "dedup",
        NodeKind::Spawn => "spawn",
        NodeKind::Gate => "gate",
        NodeKind::Loop => "loop",
        NodeKind::Void => "void",
        NodeKind::Approval => "approval",
        NodeKind::Scatter => "scatter",
        NodeKind::Gather => "gather",
    }
}

/// One step of a workflow.
#[derive(Debug, PartialEq, Eq)]
pub struct Node {
    /// Unique within a graph.
    pub id: String,
    pub kind: NodeKind,
    pub type_version: u32,
    pub name: String,
    pub config: Json,
    /// Where an editor shows it; nothing is run by it.
    pub position: Option<Position>,
}

#[verifier::ext_equal]
pub struct NodeView {
    pub id: Seq<char>,
    pub kind: NodeKind,
    pub type_version: u32,
    pub name: Seq<char>,
    pub config: JsonView,
    pub position: Option<PositionView>,
}

impl View for Node {
    type V = NodeView;

    open spec fn view(&self) -> NodeView {
        NodeView {
            id: self.id@,
            kind: self.kind,
            type_version: self.type_version,
            name: self.name@,
            config: self.config@,
            position: opt_view(self.position),
        }
    }
}

/// A place on an editor's canvas.
#[derive(Debug, PartialEq, Eq)]
pub struct Position {
    pub x: Number,
    pub y: Number,
}

#[verifier::ext_equal]
pub struct PositionView {
    pub x: NumberView,
    pub y: NumberView,
}

impl View for Position {
    type V = PositionView;

    open spec fn view(&self) -> PositionView {
        PositionView { x: self.x@, y: self.y@ }
    }
}

/// A connection from one node's port to another's.
#[derive(Debug, PartialEq, Eq)]
pub struct Edge {
    pub from_node: String,
    pub from_port: String,
    pub to_node: String,
    pub to_port: String,
}

#[verifier::ext_equal]
pub struct EdgeView {
    pub from_node: Seq<char>,
    pub from_port: Seq<char>,
    pub to_node: Seq<char>,
    pub to_port: Seq<char>,
}

impl View for Edge {
    type V = EdgeView;

    open spec fn view(&self) -> EdgeView {
        EdgeView {
            from_node: self.from_node@,
            from_port: self.from_port@,
            to_node: self.to_node@,
            to_port: self.to_port@,
        }
    }
}

/// The type a declared input's value must have.
#[derive(Debug, Clone, Copy, PartialEq, Eq, Structural)]
pub enum InputType {
    String,
    Number,
    Boolean,
    Array,
    Object,
}

/// A value a workflow expects from its caller.
#[derive(Debug, PartialEq, Eq)]
pub struct WorkflowInput {
    pub name: String,
    pub ty: InputType,
    pub required: bool,
    pub default: Option<Json>,
    pub description: Option<String>,
}

#[verifier::ext_equal]
pub struct WorkflowInputView {
    pub name: Seq<char>,
    pub ty: InputType,
    pub required: bool,
    pub default: Option<JsonView>,
    pub description: Option<Seq<char>>,
}

impl View for WorkflowInput {
    type V = WorkflowInputView;

    open spec fn view(&self) -> WorkflowInputView {
        WorkflowInputView {
            name: self.name@,
            ty: self.ty,
            required: self.required,
            default: opt_view(self.default),
            description: opt_view(self.description),
        }
    }
}

/// The name an input type has in a graph's JSON.
pub open spec fn input_type_text(ty: InputType) -> Seq<char> {
    match ty {
        InputType::String => "string"@,
        InputType::Number => "number"@,
        InputType::Boolean => "boolean"@,
        InputType::Array => "array"@,
        InputType::Object => "object"@,
    }
}

/// `value` is of type `ty`.
pub open spec fn type_accepts(ty: InputType, value: JsonView) -> bool {
    match ty {
        InputType::String => value is String,
        InputType::Number => value is Number,
        InputType::Boolean => value is Bool,
        InputType::Array => value is Array,
        InputType::Object => value is Object,
    }
}

impl InputType {
    /// The name of this type in a graph's JSON.
    pub fn as_str(&self) -> (r: &'static str)
        ensures
            r@ == input_type_text(*self),
    {
        match self {
            InputType::String => "string",
            InputType::Number => "number",
            InputType::Boolean => "boolean",
            InputType::Array => "array",
            InputType::Object => "object",
        }
    }

    /// Whether `value` is of this type.
    pub fn accepts(&self, value: &Json) -> (r: bool)
        ensures
            r == type_accepts(*self, value@),
    {
        match (self, value) {
            (InputType::String, Json::String(_)) => true,
            (InputType::Number, Json::Number(_)) => true,
            (InputType::Boolean, Json::Bool(_)) => true,
            (InputType::Array, Json::Array(_)) => true,
            (InputType::Object, Json::Object(_)) => true,
            _ => false,
        }
    }
}

pub open spec fn is_name_start(c: char) -> bool {
    'a' <= c <= 'z' || 'A' <= c <= 'Z' || c == '_'
}

pub open spec fn is_name_char(c: char) -> bool {
    is_name_start(c) || '0' <= c <= '9'
}

/// A name that `=inputs.<name>` can address: a letter or underscore, and then
/// letters, digits and underscores.
pub open spec fn addressable(name: Seq<char>) -> bool {
    &&& name.len() > 0
    &&& is_name_start(name[0])
    &&& forall|i: int| 0 <= i < name.len() ==> is_name_char(#[trigger] name[i])
}

/// Whether `=inputs.<name>` can address `name`.
pub fn is_valid_input_name(name: &str) -> (r: bool)
    ensures
        r == addressable(name@),
{
    let chars = chars_of(name);
    if chars.len() == 0 {
        return false;
    }
    let first = chars[0];
    if !(('a' <= first && first <= 'z') || ('A' <= first && first <= 'Z') || first == '_') {
        return false;
    }
    let mut i: usize = 0;
    while i < chars.len()
        invariant
            i <= chars.len(),
            chars@ == name@,
            forall|k: int| 0 <= k < i ==> is_name_char(#[trigger] name@[k]),
        decreases chars.len() - i,
    {
        let c = chars[i];
        if !(('a' <= c && c <= 'z') || ('A' <= c && c <= 'Z') || c == '_' || ('0' <= c && c
            <= '9')) {
            assert(!is_name_char(name@[i as int]));
            return false;
        }
        i = i + 1;
    }
    true
}

/// A workflow: its declared inputs and agents, its nodes, and the edges
/// between them.
#[derive(Debug, PartialEq, Eq)]
pub struct WorkflowGraph {
    pub schema_version: u32,
    pub id: Option<String>,
    pub name: String,
    pub inputs: Vec<WorkflowInput>,
    pub agents: Vec<AgentDefinition>,
    pub nodes: Vec<Node>,
    pub edges: Vec<Edge>,
}

#[verifier::ext_equal]
pub struct GraphView {
    pub schema_version: u32,
    pub id: Option<Seq<char>>,
    pub name: Seq<char>,
    pub inputs: Seq<WorkflowInputView>,
    pub agents: Seq<AgentDefinitionView>,
    pub nodes: Seq<NodeView>,
    pub edges: Seq<EdgeView>,
}

impl View for WorkflowGraph {
    type V = GraphView;

    open spec fn view(&self) -> GraphView {
        GraphView {
            schema_version: self.schema_version,
            id: opt_view(self.id),
            name: self.name@,
            inputs: views(self.inputs@),
            agents: views(self.agents@),
            nodes: views(self.nodes@),
            edges: views(self.edges@),
        }
    }
}

impl Default for WorkflowGraph {
    fn default() -> (r: Self)
        ensures
            r@ == empty_graph(),
    {
        let r = WorkflowGraph {
            schema_version: 1,
            id: None,
            name: String::new(),
            inputs: Vec::new(),
            agents: Vec::new(),
            nodes: Vec::new(),
            edges: Vec::new(),
        };
        assert(r@ =~= empty_graph());
        r
    }
}

/// The graph with nothing in it.
pub open spec fn empty_graph() -> GraphView {
    GraphView {
        schema_version: 1,
        id: None,
        name: Seq::empty(),
        inputs: Seq::empty(),
        agents: Seq::empty(),
        nodes: Seq::empty(),
        edges: Seq::empty(),
    }
}

impl GraphView {
    /// Some node has this id.
    pub open spec fn has_node(self, id: Seq<char>) -> bool {
        exists|i: int| 0 <= i < self.nodes.len() && (#[trigger] self.nodes[i]).id == id
    }

    /// Node `i` is the only trigger.
    pub open spec fn is_only_trigger(self, i: int) -> bool {
        &&& 0 <= i < self.nodes.len()
        &&& self.nodes[i].kind == NodeKind::Trigger
        &&& forall|k: int|
            0 <= k < self.nodes.len() && (#[trigger] self.nodes[k]).kind == NodeKind::Trigger ==> k
                == i
    }

    /// `i` is the position of the first node with this id.
    pub open spec fn is_first(self, id: Seq<char>, i: int) -> bool {
        &&& 0 <= i < self.nodes.len()
        &&& self.nodes[i].id == id
        &&& forall|k: int| 0 <= k < i ==> (#[trigger] self.nodes[k]).id != id
    }
}

impl WorkflowGraph {
    /// The position of the first node with this id.
    pub fn node_index(&self, id: &str) -> (r: Option<usize>)
        ensures
            match r {
                Some(i) => self@.is_first(id@, i as int),
                None => !self@.has_node(id@),
            },
    {
        let mut i: usize = 0;
        while i < self.nodes.len()
            invariant
                i <= self.nodes.len(),
                forall|k: int| 0 <= k < i ==> (#[trigger] self@.nodes[k]).id != id@,
            decreases self.nodes.len() - i,
        {
            assert(self@.nodes[i as int] == self.nodes@[i as int]@);
            if same(self.nodes[i].id.as_str(), id) {
                return Some(i);
            }
            i = i + 1;
        }
        None
    }

    /// The position of the trigger, where the graph has exactly one.
    pub fn trigger_index(&self) -> (r: Option<usize>)
        ensures
            match r {
                Some(i) => self@.is_only_trigger(i as int),
                None => forall|i: int| !self@.is_only_trigger(i),
            },
    {
        let mut found: Option<usize> = None;
        let mut i: usize = 0;
        while i < self.nodes.len()
            invariant
                i <= self.nodes.len(),
                match found {
                    Some(t) => t < i && self@.nodes[t as int].kind == NodeKind::Trigger && (forall|
                        k: int,
                    |
                        0 <= k < i && (#[trigger] self@.nodes[k]).kind == NodeKind::Trigger ==> k
                            == t),
                    None => forall|k: int|
                        0 <= k < i ==> (#[trigger] self@.nodes[k]).kind != NodeKind::Trigger,
                },
            decreases self.nodes.len() - i,
        {
            assert(self@.nodes[i as int] == self.nodes@[i as int]@);
            if self.nodes[i].kind == NodeKind::Trigger {
                match found {
                    Some(t) => {
                        assert(self@.nodes[t as int].kind == NodeKind::Trigger);
                        return None;
                    },
                    None => {
                        found = Some(i);
                    },
                }
            }
            i = i + 1;
        }
        found
    }

    /// The first node with this id.
    pub fn node(&self, id: &str) -> (r: Option<&Node>)
        ensures
            match r {
                Some(node) => exists|i: int| #[trigger]
                    self@.is_first(id@, i) && self@.nodes[i] == node@,
                None => !self@.has_node(id@),
            },
    {
        match self.node_index(id) {
            Some(i) => {
                assert(self@.is_first(id@, i as int));
                Some(&self.nodes[i])
            },
            None => None,
        }
    }
}

} // verus!
