//! What crosses between the loop and whatever runs a graph.
//!
//! The steps cross, and not only the final output: an error that a policy
//! swallowed, every pass of a loop, and whatever a failed run managed are only
//! there. Outputs are bounded node by node.
use vstd::prelude::*;

use crate::adaptive::execute::{OutcomeView, Ran, RanView, RunOutcome};
use crate::evidence::{bounded, bounded_within};
use crate::json::{
    entry, lemma_set_member_keeps_others, lemma_set_member_reads_back, member, members, object,
    set_member, text_json, with_member, Json, JsonView,
};
use crate::model::graph::WorkflowGraph;
use crate::nodes::{NullResolution, NullResolutionView};
use crate::text::{opt_view, views};

verus! {

/// Per-node budget of the record, which is written once.
pub const RECORD_BUDGET: usize = 262144;

/// Per-node budget of what a judge reads, where a dozen share one window.
pub const PROMPT_BUDGET: usize = 4096;

/// Whether an activation succeeded, as the engine reports it.
#[derive(Debug, Clone, Copy, PartialEq, Eq, Structural)]
pub enum StepStatus {
    Success,
    Error,
}

/// Whether an activation succeeded, as it crosses.
#[derive(Debug, Clone, Copy, PartialEq, Eq, Structural)]
pub enum StepOutcome {
    /// The node executed and gave output.
    Success,
    /// The node failed, after any retries.
    Error,
}

/// How a status crosses.
pub open spec fn outcome_of(status: StepStatus) -> StepOutcome {
    match status {
        StepStatus::Success => StepOutcome::Success,
        StepStatus::Error => StepOutcome::Error,
    }
}

/// What a crossed status stands for.
pub open spec fn status_of(outcome: StepOutcome) -> StepStatus {
    match outcome {
        StepOutcome::Success => StepStatus::Success,
        StepOutcome::Error => StepStatus::Error,
    }
}

/// One activation of a node, as the engine reports it.
#[derive(Debug, PartialEq, Eq)]
pub struct ExecutionStep {
    pub node_id: String,
    pub status: StepStatus,
    pub output: Json,
    pub duration_ms: u128,
    /// Config expressions that resolved to `null`.
    pub diagnostics: Vec<NullResolution>,
}

#[verifier::ext_equal]
pub struct ExecutionStepView {
    pub node_id: Seq<char>,
    pub status: StepStatus,
    pub output: JsonView,
    pub duration_ms: u128,
    pub diagnostics: Seq<NullResolutionView>,
}

impl View for ExecutionStep {
    type V = ExecutionStepView;

    open spec fn view(&self) -> ExecutionStepView {
        ExecutionStepView {
            node_id: self.node_id@,
            status: self.status,
            output: self.output@,
            duration_ms: self.duration_ms,
            diagnostics: views(self.diagnostics@),
        }
    }
}

/// One activation of a node, as it crosses. A node that ran several times is
/// there several times, in order.
#[derive(Debug, PartialEq, Eq)]
pub struct StepRecord {
    pub node_id: String,
    pub status: StepOutcome,
    /// What it emitted, held to the budget it was recorded at.
    pub output: Json,
    pub duration_ms: u64,
    pub null_bindings: Vec<NullResolution>,
}

#[verifier::ext_equal]
pub struct StepRecordView {
    pub node_id: Seq<char>,
    pub status: StepOutcome,
    pub output: JsonView,
    pub duration_ms: u64,
    pub null_bindings: Seq<NullResolutionView>,
}

impl View for StepRecord {
    type V = StepRecordView;

    open spec fn view(&self) -> StepRecordView {
        StepRecordView {
            node_id: self.node_id@,
            status: self.status,
            output: self.output@,
            duration_ms: self.duration_ms,
            null_bindings: views(self.null_bindings@),
        }
    }
}

/// A duration that fits, and the largest that does where it does not.
pub open spec fn saturated(ms: u128) -> u64 {
    if ms <= u64::MAX {
        ms as u64
    } else {
        u64::MAX
    }
}

/// A step as it is recorded.
pub open spec fn record_of(step: ExecutionStepView, budget: nat) -> StepRecordView {
    StepRecordView {
        node_id: step.node_id,
        status: outcome_of(step.status),
        output: bounded(step.output, budget),
        duration_ms: saturated(step.duration_ms),
        null_bindings: step.diagnostics,
    }
}

/// A record as a step.
pub open spec fn step_of(record: StepRecordView) -> ExecutionStepView {
    ExecutionStepView {
        node_id: record.node_id,
        status: status_of(record.status),
        output: record.output,
        duration_ms: record.duration_ms as u128,
        diagnostics: record.null_bindings,
    }
}

fn copy_nulls(items: &Vec<NullResolution>) -> (r: Vec<NullResolution>)
    ensures
        views(r@) == views(items@),
{
    let mut copies: Vec<NullResolution> = Vec::new();
    let mut i: usize = 0;
    while i < items.len()
        invariant
            i <= items@.len(),
            copies@.len() == i,
            forall|k: int| 0 <= k < i ==> (#[trigger] copies@[k])@ == items@[k]@,
        decreases items@.len() - i,
    {
        copies.push(
            NullResolution {
                location: items[i].location.clone(),
                expression: items[i].expression.clone(),
            },
        );
        i = i + 1;
    }
    assert(views(copies@) =~= views(items@));
    copies
}

impl StepRecord {
    /// Records a step, its output held to a budget.
    pub fn bounded(step: &ExecutionStep, budget: usize) -> (r: Self)
        ensures
            r@ == record_of(step@, budget as nat),
    {
        let duration_ms: u64 = if step.duration_ms <= u64::MAX as u128 {
            step.duration_ms as u64
        } else {
            u64::MAX
        };
        StepRecord {
            node_id: step.node_id.clone(),
            status: match step.status {
                StepStatus::Success => StepOutcome::Success,
                StepStatus::Error => StepOutcome::Error,
            },
            output: bounded_within(&step.output, budget),
            duration_ms,
            null_bindings: copy_nulls(&step.diagnostics),
        }
    }

    /// The step this records.
    pub fn to_step(&self) -> (r: ExecutionStep)
        ensures
            r@ == step_of(self@),
    {
        ExecutionStep {
            node_id: self.node_id.clone(),
            status: match self.status {
                StepOutcome::Success => StepStatus::Success,
                StepOutcome::Error => StepStatus::Error,
            },
            output: self.output.clone(),
            duration_ms: self.duration_ms as u128,
            diagnostics: copy_nulls(&self.null_bindings),
        }
    }
}

/// What the loop asks to have run.
#[derive(Debug, PartialEq, Eq)]
pub struct RunRequest {
    /// Correlates the reply.
    pub attempt_id: String,
    pub graph: WorkflowGraph,
    /// Values for the graph's declared inputs.
    pub inputs: Vec<(String, Json)>,
}

/// What comes back.
#[derive(Debug, PartialEq, Eq)]
pub struct RunReport {
    /// Echoed from the request.
    pub attempt_id: String,
    /// Every activation, in the order of completion.
    pub steps: Vec<StepRecord>,
    pub pending_approvals: Vec<String>,
    pub cancelled: bool,
    /// What the host says changed outside the run.
    pub changed: String,
    /// The engine's error, where the run did not complete.
    pub failed: Option<String>,
}

#[verifier::ext_equal]
pub struct ReportView {
    pub attempt_id: Seq<char>,
    pub steps: Seq<StepRecordView>,
    pub pending_approvals: Seq<Seq<char>>,
    pub cancelled: bool,
    pub changed: Seq<char>,
    pub failed: Option<Seq<char>>,
}

impl View for RunReport {
    type V = ReportView;

    open spec fn view(&self) -> ReportView {
        ReportView {
            attempt_id: self.attempt_id@,
            steps: views(self.steps@),
            pending_approvals: views(self.pending_approvals@),
            cancelled: self.cancelled,
            changed: self.changed@,
            failed: opt_view(self.failed),
        }
    }
}

impl Default for RunReport {
    fn default() -> (r: Self)
        ensures
            r@ == (ReportView {
                attempt_id: Seq::empty(),
                steps: Seq::empty(),
                pending_approvals: Seq::empty(),
                cancelled: false,
                changed: Seq::empty(),
                failed: None,
            }),
    {
        let r = RunReport {
            attempt_id: String::new(),
            steps: Vec::new(),
            pending_approvals: Vec::new(),
            cancelled: false,
            changed: String::new(),
            failed: None,
        };
        assert(r@.steps =~= Seq::empty());
        assert(r@.pending_approvals =~= Seq::empty());
        assert(r@.attempt_id =~= Seq::empty());
        assert(r@.changed =~= Seq::empty());
        r
    }
}

/// The nodes after the first `n` steps: each with what it emitted last.
pub open spec fn final_nodes(steps: Seq<StepRecordView>, n: nat) -> Seq<(Seq<char>, JsonView)>
    decreases n,
{
    if n == 0 {
        Seq::empty()
    } else {
        with_member(
            final_nodes(steps, (n - 1) as nat),
            steps[n - 1].node_id,
            bounded(steps[n - 1].output, PROMPT_BUDGET as nat),
        )
    }
}

/// The output a report is judged by: the nodes, where any ran, and the error,
/// where there is one.
pub open spec fn output_of(report: ReportView) -> Seq<(Seq<char>, JsonView)> {
    (if report.steps.len() > 0 {
        seq![("nodes"@, JsonView::Object(final_nodes(report.steps, report.steps.len())))]
    } else {
        Seq::empty()
    }) + (match report.failed {
        Some(message) => seq![("error"@, JsonView::String(message))],
        None => Seq::empty(),
    })
}

/// What a report is rebuilt to.
pub open spec fn rebuilt(report: ReportView, diagnosis: JsonView) -> RanView {
    RanView {
        outcome: OutcomeView {
            output: JsonView::Object(output_of(report)),
            pending_approvals: report.pending_approvals,
            cancelled: report.cancelled,
        },
        diagnosis,
        changed: report.changed,
        failed: report.failed,
        steps: report.steps,
    }
}

impl RunReport {
    /// The engine's steps of this report, for a diagnosis.
    pub fn to_steps(&self) -> (r: Vec<ExecutionStep>)
        ensures
            views(r@) == Seq::new(self@.steps.len(), |i: int| step_of(self@.steps[i])),
    {
        let mut steps: Vec<ExecutionStep> = Vec::new();
        let mut i: usize = 0;
        while i < self.steps.len()
            invariant
                i <= self.steps@.len(),
                steps@.len() == i,
                forall|k: int| 0 <= k < i ==> (#[trigger] steps@[k])@ == step_of(self.steps@[k]@),
            decreases self.steps@.len() - i,
        {
            steps.push(self.steps[i].to_step());
            i = i + 1;
        }
        assert(views(steps@) =~= Seq::new(self@.steps.len(), |i: int| step_of(self@.steps[i])));
        steps
    }

    /// Rebuilds what an attempt is judged by. `diagnosis` is what the engine
    /// makes of this report's steps.
    pub fn into_ran(self, diagnosis: Json) -> (r: Ran)
        ensures
            r@ == rebuilt(self@, diagnosis@),
    {
        let ghost all = views(self.steps@);
        let mut nodes: Vec<(String, Json)> = Vec::new();
        let mut i: usize = 0;
        assert(members(nodes@) =~= final_nodes(all, 0));
        while i < self.steps.len()
            invariant
                i <= self.steps@.len(),
                all == views(self.steps@),
                members(nodes@) == final_nodes(all, i as nat),
            decreases self.steps@.len() - i,
        {
            assert(all[i as int] == self.steps@[i as int]@);
            let shown = bounded_within(&self.steps[i].output, PROMPT_BUDGET);
            set_member(&mut nodes, self.steps[i].node_id.as_str(), shown);
            i = i + 1;
        }
        let mut output: Vec<(String, Json)> = Vec::new();
        if self.steps.len() > 0 {
            output.push(member("nodes", object(nodes)));
        }
        match &self.failed {
            Some(message) => {
                output.push(member("error", text_json(message.as_str())));
            },
            None => {},
        }
        assert(members(output@) =~= output_of(self@));
        Ran {
            outcome: RunOutcome {
                output: object(output),
                pending_approvals: self.pending_approvals,
                cancelled: self.cancelled,
            },
            diagnosis,
            changed: self.changed,
            failed: self.failed,
            steps: self.steps,
        }
    }
}

/// `i` is the last activation of its node among the first `n`.
pub open spec fn is_last_activation(steps: Seq<StepRecordView>, n: nat, i: int) -> bool {
    &&& 0 <= i < n <= steps.len()
    &&& forall|k: int| i < k < n ==> (#[trigger] steps[k]).node_id != steps[i].node_id
}

/// Of a node that ran several times, the final state shows the last.
pub proof fn last_activation_wins(steps: Seq<StepRecordView>, n: nat, i: int)
    requires
        is_last_activation(steps, n, i),
    ensures
        entry(final_nodes(steps, n), steps[i].node_id) == Some(
            bounded(steps[i].output, PROMPT_BUDGET as nat),
        ),
    decreases n,
{
    let before = final_nodes(steps, (n - 1) as nat);
    let shown = bounded(steps[n - 1].output, PROMPT_BUDGET as nat);
    if i == n - 1 {
        lemma_set_member_reads_back(before, steps[n - 1].node_id, shown);
    } else {
        assert(is_last_activation(steps, (n - 1) as nat, i));
        last_activation_wins(steps, (n - 1) as nat, i);
        lemma_set_member_keeps_others(before, steps[n - 1].node_id, shown, steps[i].node_id);
    }
}

/// The history is not lost: every activation of a report is kept, in order,
/// whatever the run came to.
pub proof fn every_activation_is_kept(report: ReportView, diagnosis: JsonView)
    ensures
        rebuilt(report, diagnosis).steps == report.steps,
{
}

/// A swallowed error survives the crossing: a record reads back as a step with
/// the same node, status and diagnostics, and with the same output where that
/// fits.
pub proof fn steps_survive_the_crossing(step: ExecutionStepView, budget: nat)
    ensures
        step_of(record_of(step, budget)).node_id == step.node_id,
        step_of(record_of(step, budget)).status == step.status,
        step_of(record_of(step, budget)).diagnostics == step.diagnostics,
        bounded(step.output, budget) == step.output ==> step_of(record_of(step, budget)).output
            == step.output,
        step.duration_ms <= u64::MAX ==> step_of(record_of(step, budget)).duration_ms
            == step.duration_ms,
{
}

} // verus!
