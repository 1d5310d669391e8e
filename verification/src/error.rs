//! What can be wrong with a workflow graph.
use vstd::prelude::*;

use crate::text::views;

verus! {

/// One structural problem of a workflow graph.
#[derive(Debug, PartialEq, Eq)]
pub enum ValidationError {
    /// Two nodes share an id.
    DuplicateNodeId(String),
    /// No node is a trigger.
    MissingTrigger,
    /// More than one node is a trigger.
    MultipleTriggers(Vec<String>),
    /// An edge names a node that is not there.
    UnknownNode(String),
    /// Two edges are the same.
    DuplicateEdge { from_node: String, from_port: String, to_node: String, to_port: String },
    /// A node's configuration cannot work.
    InvalidNodeConfig { node: String, reason: String },
    /// A node routes its errors, but no edge carries them.
    MissingErrorRoute(String),
    /// A node's error policy is none of the known ones.
    InvalidOnError { node: String, value: String },
    /// An edge leaves a condition by a port that is neither `true` nor `false`.
    InvalidConditionRouting { node: String, from_port: String },
    /// A declared input cannot be addressed by its name.
    InvalidInputName(String),
    /// Two declared inputs share a name.
    DuplicateInputName(String),
    /// A declared input's default is not of its type.
    InputDefaultTypeMismatch { name: String, expected: &'static str },
    /// A declared input is required and has a default.
    RequiredInputWithDefault(String),
    /// An agent's definition cannot be trusted.
    InvalidAgentDefinition { agent: String, reason: String },
}

#[verifier::ext_equal]
pub enum ErrorView {
    DuplicateNodeId(Seq<char>),
    MissingTrigger,
    MultipleTriggers(Seq<Seq<char>>),
    UnknownNode(Seq<char>),
    DuplicateEdge {
        from_node: Seq<char>,
        from_port: Seq<char>,
        to_node: Seq<char>,
        to_port: Seq<char>,
    },
    InvalidNodeConfig { node: Seq<char>, reason: Seq<char> },
    MissingErrorRoute(Seq<char>),
    InvalidOnError { node: Seq<char>, value: Seq<char> },
    InvalidConditionRouting { node: Seq<char>, from_port: Seq<char> },
    InvalidInputName(Seq<char>),
    DuplicateInputName(Seq<char>),
    InputDefaultTypeMismatch { name: Seq<char>, expected: Seq<char> },
    RequiredInputWithDefault(Seq<char>),
    InvalidAgentDefinition { agent: Seq<char>, reason: Seq<char> },
}

impl View for ValidationError {
    type V = ErrorView;

    open spec fn view(&self) -> ErrorView {
        match *self {
            ValidationError::DuplicateNodeId(id) => ErrorView::DuplicateNodeId(id@),
            ValidationError::MissingTrigger => ErrorView::MissingTrigger,
            ValidationError::MultipleTriggers(ids) => ErrorView::MultipleTriggers(views(ids@)),
            ValidationError::UnknownNode(id) => ErrorView::UnknownNode(id@),
            ValidationError::DuplicateEdge { from_node, from_port, to_node, to_port } =>
                ErrorView::DuplicateEdge {
                from_node: from_node@,
                from_port: from_port@,
                to_node: to_node@,
                to_port: to_port@,
            },
            ValidationError::InvalidNodeConfig { node, reason } => ErrorView::InvalidNodeConfig {
                node: node@,
                reason: reason@,
            },
            ValidationError::MissingErrorRoute(id) => ErrorView::MissingErrorRoute(id@),
            ValidationError::InvalidOnError { node, value } => ErrorView::InvalidOnError {
                node: node@,
                value: value@,
            },
            ValidationError::InvalidConditionRouting { node, from_port } =>
                ErrorView::InvalidConditionRouting { node: node@, from_port: from_port@ },
            ValidationError::InvalidInputName(name) => ErrorView::InvalidInputName(name@),
            ValidationError::DuplicateInputName(name) => ErrorView::DuplicateInputName(name@),
            ValidationError::InputDefaultTypeMismatch { name, expected } =>
                ErrorView::InputDefaultTypeMismatch { name: name@, expected: expected@ },
            ValidationError::RequiredInputWithDefault(name) => ErrorView::RequiredInputWithDefault(
                name@,
            ),
            ValidationError::InvalidAgentDefinition { agent, reason } =>
                ErrorView::InvalidAgentDefinition { agent: agent@, reason: reason@ },
        }
    }
}

impl ErrorView {
    /// The machine-readable name of the problem.
    pub open spec fn code(self) -> Seq<char> {
        match self {
            ErrorView::DuplicateNodeId(_) => "duplicate_node_id"@,
            ErrorView::MissingTrigger => "missing_trigger"@,
            ErrorView::MultipleTriggers(_) => "multiple_triggers"@,
            ErrorView::UnknownNode(_) => "unknown_node"@,
            ErrorView::DuplicateEdge { .. } => "duplicate_edge"@,
            ErrorView::InvalidNodeConfig { .. } => "invalid_node_config"@,
            ErrorView::MissingErrorRoute(_) => "missing_error_route"@,
            ErrorView::InvalidOnError { .. } => "invalid_on_error"@,
            ErrorView::InvalidConditionRouting { .. } => "invalid_condition_routing"@,
            ErrorView::InvalidInputName(_) => "invalid_input_name"@,
            ErrorView::DuplicateInputName(_) => "duplicate_input_name"@,
            ErrorView::InputDefaultTypeMismatch { .. } => "input_default_type_mismatch"@,
            ErrorView::RequiredInputWithDefault(_) => "required_input_with_default"@,
            ErrorView::InvalidAgentDefinition { .. } => "invalid_agent_definition"@,
        }
    }

    /// The node the problem is about; nothing for a problem of the whole graph.
    pub open spec fn node_id(self) -> Option<Seq<char>> {
        match self {
            ErrorView::DuplicateNodeId(id) => Some(id),
            ErrorView::UnknownNode(id) => Some(id),
            ErrorView::DuplicateEdge { from_node, .. } => Some(from_node),
            ErrorView::InvalidNodeConfig { node, .. } => Some(node),
            ErrorView::MissingErrorRoute(id) => Some(id),
            ErrorView::InvalidOnError { node, .. } => Some(node),
            ErrorView::InvalidConditionRouting { node, .. } => Some(node),
            _ => None,
        }
    }

    /// What a person or a model is told of the problem.
    pub open spec fn message(self) -> Seq<char> {
        self.code() + (match self.node_id() {
            Some(id) => " at node "@ + id,
            None => Seq::empty(),
        }) + (match self {
            ErrorView::InvalidNodeConfig { reason, .. } => ": "@ + reason,
            ErrorView::InvalidAgentDefinition { agent, reason } => " of agent "@ + agent + ": "@
                + reason,
            _ => Seq::empty(),
        })
    }
}

impl ValidationError {
    /// The machine-readable name of the problem.
    pub fn code(&self) -> (r: &'static str)
        ensures
            r@ == self@.code(),
    {
        match self {
            ValidationError::DuplicateNodeId(_) => "duplicate_node_id",
            ValidationError::MissingTrigger => "missing_trigger",
            ValidationError::MultipleTriggers(_) => "multiple_triggers",
            ValidationError::UnknownNode(_) => "unknown_node",
            ValidationError::DuplicateEdge { .. } => "duplicate_edge",
            ValidationError::InvalidNodeConfig { .. } => "invalid_node_config",
            ValidationError::MissingErrorRoute(_) => "missing_error_route",
            ValidationError::InvalidOnError { .. } => "invalid_on_error",
            ValidationError::InvalidConditionRouting { .. } => "invalid_condition_routing",
            ValidationError::InvalidInputName(_) => "invalid_input_name",
            ValidationError::DuplicateInputName(_) => "duplicate_input_name",
            ValidationError::InputDefaultTypeMismatch { .. } => "input_default_type_mismatch",
            ValidationError::RequiredInputWithDefault(_) => "required_input_with_default",
            ValidationError::InvalidAgentDefinition { .. } => "invalid_agent_definition",
        }
    }

    /// The node the problem is about; nothing for a problem of the whole graph.
    pub fn node_id(&self) -> (r: Option<&str>)
        ensures
            (match r {
                Some(id) => self@.node_id() == Some(id@),
                None => self@.node_id() is None,
            }),
    {
        match self {
            ValidationError::DuplicateNodeId(id) => Some(id.as_str()),
            ValidationError::UnknownNode(id) => Some(id.as_str()),
            ValidationError::DuplicateEdge { from_node, .. } => Some(from_node.as_str()),
            ValidationError::InvalidNodeConfig { node, .. } => Some(node.as_str()),
            ValidationError::MissingErrorRoute(id) => Some(id.as_str()),
            ValidationError::InvalidOnError { node, .. } => Some(node.as_str()),
            ValidationError::InvalidConditionRouting { node, .. } => Some(node.as_str()),
            _ => None,
        }
    }

    /// What a person or a model is told of the problem.
    pub fn message(&self) -> (r: String)
        ensures
            r@ == self@.message(),
    {
        let mut text = self.code().to_owned();
        match self.node_id() {
            Some(id) => {
                text.append(" at node ");
                text.append(id);
            },
            None => {},
        }
        match self {
            ValidationError::InvalidNodeConfig { reason, .. } => {
                text.append(": ");
                text.append(reason.as_str());
            },
            ValidationError::InvalidAgentDefinition { agent, reason } => {
                text.append(" of agent ");
                text.append(agent.as_str());
                text.append(": ");
                text.append(reason.as_str());
            },
            _ => {},
        }
        assert(text@ =~= self@.message());
        text
    }
}

} // verus!
