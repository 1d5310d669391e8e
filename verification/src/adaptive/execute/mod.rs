//! Running one attempt, and coming back with something to judge it by.
//!
//! A run that fails is an attempt like any other: the error becomes evidence,
//! so that the attempt is recorded and not made again.
use vstd::prelude::*;

use crate::adaptive::execute::wire::{StepRecord, StepRecordView};
use crate::json::{member, members, object, text_json, Json, JsonView};
use crate::text::{opt_view, views};

pub mod report_laws;
pub mod wire;

verus! {

/// What changed outside a run, as the host sees it: a mark taken before, and a
/// description of what changed since.
pub trait Workspace {
    /// Takes a mark before the run; empty where the host has none to take.
    fn mark(&self) -> (r: String)
        default_ensures
            r@.len() == 0,
    {
        String::new()
    }

    /// Describes what changed since the mark; empty where the host cannot say.
    fn changed_since(&self, _mark: &str) -> (r: String)
        default_ensures
            r@.len() == 0,
    {
        String::new()
    }
}

/// A host with nothing to report.
#[derive(Debug, Clone, Copy, PartialEq, Eq, Default)]
pub struct Unobserved;

impl Workspace for Unobserved {

}

/// What a run came to.
#[derive(Debug, PartialEq, Eq)]
pub struct RunOutcome {
    pub output: Json,
    /// The approvals the run is waiting for.
    pub pending_approvals: Vec<String>,
    pub cancelled: bool,
}

#[verifier::ext_equal]
pub struct OutcomeView {
    pub output: JsonView,
    pub pending_approvals: Seq<Seq<char>>,
    pub cancelled: bool,
}

impl View for RunOutcome {
    type V = OutcomeView;

    open spec fn view(&self) -> OutcomeView {
        OutcomeView {
            output: self.output@,
            pending_approvals: views(self.pending_approvals@),
            cancelled: self.cancelled,
        }
    }
}

/// The outcome of a run that gave none: its error, and no nodes.
pub open spec fn error_outcome(message: Seq<char>) -> OutcomeView {
    OutcomeView {
        output: JsonView::Object(seq![("error"@, JsonView::String(message))]),
        pending_approvals: Seq::empty(),
        cancelled: false,
    }
}

/// The outcome of a run that gave none.
pub fn errored(message: &str) -> (r: RunOutcome)
    ensures
        r@ == error_outcome(message@),
{
    let mut entries: Vec<(String, Json)> = Vec::new();
    entries.push(member("error", text_json(message)));
    assert(members(entries@) =~= seq![("error"@, JsonView::String(message@))]);
    let r = RunOutcome {
        output: object(entries),
        pending_approvals: Vec::new(),
        cancelled: false,
    };
    assert(r@.pending_approvals =~= Seq::empty());
    r
}

/// One attempt, run.
#[derive(Debug, PartialEq, Eq)]
pub struct Ran {
    pub outcome: RunOutcome,
    /// What the engine made of the steps.
    pub diagnosis: Json,
    /// What the host says changed; empty where it does not say.
    pub changed: String,
    /// The engine's error, where the run did not complete.
    pub failed: Option<String>,
    /// Every activation, in the order of completion.
    pub steps: Vec<StepRecord>,
}

#[verifier::ext_equal]
pub struct RanView {
    pub outcome: OutcomeView,
    pub diagnosis: JsonView,
    pub changed: Seq<char>,
    pub failed: Option<Seq<char>>,
    pub steps: Seq<StepRecordView>,
}

impl View for Ran {
    type V = RanView;

    open spec fn view(&self) -> RanView {
        RanView {
            outcome: self.outcome@,
            diagnosis: self.diagnosis@,
            changed: self.changed@,
            failed: opt_view(self.failed),
            steps: views(self.steps@),
        }
    }
}

/// What an attempt is judged by.
pub struct Evidence<'a> {
    pub outcome: &'a RunOutcome,
    pub diagnosis: &'a Json,
    pub changed: String,
}

impl Ran {
    /// What the attempt is judged by: the three sources as they are.
    pub fn evidence(&self) -> (r: Evidence<'_>)
        ensures
            *r.outcome == self.outcome,
            *r.diagnosis == self.diagnosis,
            r.changed@ == self.changed@,
    {
        Evidence {
            outcome: &self.outcome,
            diagnosis: &self.diagnosis,
            changed: self.changed.clone(),
        }
    }
}

/// What a run is held by, whether it completed or not.
pub open spec fn ran_of(
    result: Result<OutcomeView, Seq<char>>,
    diagnosis: JsonView,
    changed: Seq<char>,
    steps: Seq<StepRecordView>,
) -> RanView {
    match result {
        Ok(outcome) => RanView { outcome, diagnosis, changed, failed: None, steps },
        Err(message) => RanView {
            outcome: error_outcome(message),
            diagnosis,
            changed,
            failed: Some(message),
            steps,
        },
    }
}

/// Makes an attempt of a run, whether it completed or not: an error of
/// compiling or of running becomes its outcome.
pub fn conclude(
    result: Result<RunOutcome, String>,
    diagnosis: Json,
    changed: String,
    steps: Vec<StepRecord>,
) -> (r: Ran)
    ensures
        r@ == ran_of(
            (match result {
                Ok(outcome) => Ok(outcome@),
                Err(message) => Err(message@),
            }),
            diagnosis@,
            changed@,
            views(steps@),
        ),
{
    match result {
        Ok(outcome) => Ran { outcome, diagnosis, changed, failed: None, steps },
        Err(message) => Ran {
            outcome: errored(message.as_str()),
            diagnosis,
            changed,
            failed: Some(message),
            steps,
        },
    }
}

/// A failure is evidence and not an absence: its message is there under
/// `error`, and no node is.
pub proof fn failures_are_evidence(
    message: Seq<char>,
    diagnosis: JsonView,
    changed: Seq<char>,
    steps: Seq<StepRecordView>,
)
    ensures
        ran_of(Err(message), diagnosis, changed, steps).outcome.output.get("error"@) == Some(
            JsonView::String(message),
        ),
        ran_of(Err(message), diagnosis, changed, steps).outcome.output.get("nodes"@) is None,
        ran_of(Err(message), diagnosis, changed, steps).failed == Some(message),
{
    reveal_strlit("error");
    reveal_strlit("nodes");
    let entries = error_outcome(message).output->Object_0;
    assert(entries[0].0 == "error"@);
    assert("error"@[0] != "nodes"@[0]);
    reveal_with_fuel(crate::json::entry, 2);
    assert(entries.drop_first() =~= Seq::empty());
}

} // verus!
