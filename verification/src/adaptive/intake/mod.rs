//! Goal in, runnable graph out.
//!
//! A stored workflow is preferred; one is written only when nothing fits.
use vstd::prelude::*;

use crate::adaptive::contracts::{Approach, ApproachView};
use crate::adaptive::ledger::{LedgerError, LedgerErrorView};
use crate::json::{members, Json, JsonView};
use crate::model::graph::{GraphView, WorkflowGraph};
use crate::text::views;

pub mod author;
pub mod catalogue;
pub mod choice_laws;
pub mod decide;
pub mod lowering_laws;
pub mod offer_laws;
pub mod recipe;
pub mod recipe_laws;
pub mod reply;
pub mod select;
pub mod shape;

verus! {

/// What was decided on, and how.
#[derive(Debug, PartialEq, Eq)]
pub struct Attempt {
    pub approach: Approach,
    /// The graph to run.
    pub graph: WorkflowGraph,
    /// Values for the graph's declared inputs, by name.
    pub inputs: Vec<(String, Json)>,
    /// The lessons the planner was shown, by id.
    pub lessons_shown: Vec<String>,
}

#[verifier::ext_equal]
pub struct AttemptView {
    pub approach: ApproachView,
    pub graph: GraphView,
    pub inputs: Seq<(Seq<char>, JsonView)>,
    pub lessons_shown: Seq<Seq<char>>,
}

impl View for Attempt {
    type V = AttemptView;

    open spec fn view(&self) -> AttemptView {
        AttemptView {
            approach: self.approach@,
            graph: self.graph@,
            inputs: members(self.inputs@),
            lessons_shown: views(self.lessons_shown@),
        }
    }
}

/// The value of a result of deciding.
pub open spec fn attempt_view(result: Result<Attempt, IntakeError>) -> Result<
    AttemptView,
    IntakeErrorView,
> {
    match result {
        Ok(attempt) => Ok(attempt@),
        Err(error) => Err(error@),
    }
}

/// What went wrong deciding.
#[derive(Debug, PartialEq, Eq)]
pub enum IntakeError {
    /// The store could not be read.
    Store(String),
    /// The ledger could not be read.
    Ledger(LedgerError),
    /// The model was unreachable, or answered with something unusable.
    Inference(String),
    /// The model authored a graph the engine would refuse.
    Invalid(String),
    /// The graph is well formed but names something this host does not have.
    Unsupported(String),
    /// A stored workflow was chosen whose declared inputs cannot be filled.
    Unbindable { id: String, missing: String },
}

#[verifier::ext_equal]
pub enum IntakeErrorView {
    Store(Seq<char>),
    Ledger(LedgerErrorView),
    Inference(Seq<char>),
    Invalid(Seq<char>),
    Unsupported(Seq<char>),
    Unbindable { id: Seq<char>, missing: Seq<char> },
}

impl View for IntakeError {
    type V = IntakeErrorView;

    open spec fn view(&self) -> IntakeErrorView {
        match *self {
            IntakeError::Store(text) => IntakeErrorView::Store(text@),
            IntakeError::Ledger(error) => IntakeErrorView::Ledger(error@),
            IntakeError::Inference(text) => IntakeErrorView::Inference(text@),
            IntakeError::Invalid(text) => IntakeErrorView::Invalid(text@),
            IntakeError::Unsupported(text) => IntakeErrorView::Unsupported(text@),
            IntakeError::Unbindable { id, missing } => IntakeErrorView::Unbindable {
                id: id@,
                missing: missing@,
            },
        }
    }
}

impl IntakeErrorView {
    pub open spec fn message(self) -> Seq<char> {
        match self {
            IntakeErrorView::Store(text) => "workflow store: "@ + text,
            IntakeErrorView::Ledger(error) => "ledger: "@ + error.message(),
            IntakeErrorView::Inference(text) => "inference: "@ + text,
            IntakeErrorView::Invalid(text) => "authored an invalid graph: "@ + text,
            IntakeErrorView::Unsupported(text) => "this host cannot run that graph: "@ + text,
            IntakeErrorView::Unbindable { id, missing } => "workflow "@ + id
                + " needs an input nothing supplied: "@ + missing,
        }
    }
}

impl IntakeError {
    /// The error in words.
    pub fn message(&self) -> (r: String)
        ensures
            r@ == self@.message(),
    {
        let (mut message, text) = match self {
            IntakeError::Store(text) => ("workflow store: ".to_owned(), text.clone()),
            IntakeError::Ledger(error) => ("ledger: ".to_owned(), error.message()),
            IntakeError::Inference(text) => ("inference: ".to_owned(), text.clone()),
            IntakeError::Invalid(text) => ("authored an invalid graph: ".to_owned(), text.clone()),
            IntakeError::Unsupported(text) => (
                "this host cannot run that graph: ".to_owned(),
                text.clone(),
            ),
            IntakeError::Unbindable { id, missing } => {
                let mut head = "workflow ".to_owned();
                head.append(id.as_str());
                head.append(" needs an input nothing supplied: ");
                (head, missing.clone())
            },
        };
        message.append(text.as_str());
        message
    }
}

} // verus!
