//! What holds of every report of a run: what an attempt is judged by, and that
//! nothing of it is lost on the way.
use vstd::prelude::*;

use crate::adaptive::execute::{ran_of, OutcomeView};
use crate::adaptive::execute::wire::{
    final_nodes, is_last_activation, last_activation_wins, output_of, rebuilt, record_of, step_of,
    ExecutionStepView, ReportView, StepOutcome, StepRecordView, StepStatus,
};
use crate::adaptive::intake::reply::clipped;
use crate::evidence::{bounded, text_bytes};
use crate::json::{
    entry, lemma_member_reads, lemma_no_member, lemma_set_member_keeps_others, JsonView,
};
use crate::json_text::json_text;

verus! {

proof fn lemma_keys()
    ensures
        "nodes"@ != "error"@,
        "nodes"@ != "truncated"@,
        "nodes"@ != "preview"@,
        "error"@ != "truncated"@,
        "error"@ != "preview"@,
        "truncated"@ != "preview"@,
{
    reveal_strlit("nodes");
    reveal_strlit("error");
    reveal_strlit("truncated");
    reveal_strlit("preview");
    assert("nodes"@.len() == 5 && "error"@.len() == 5 && "truncated"@.len() == 9 && "preview"@.len() == 7);
    assert("nodes"@[0] == 'n');
    assert("error"@[0] == 'e');
}

/// A run that completed is judged by its own outcome, and one that failed by its
/// error; either way with its diagnosis, its changes and its steps.
pub proof fn runs_are_judged_by_what_they_came_to(
    result: Result<OutcomeView, Seq<char>>,
    diagnosis: JsonView,
    changed: Seq<char>,
    steps: Seq<StepRecordView>,
)
    ensures
        ({
            let ran = ran_of(result, diagnosis, changed, steps);
            &&& ran.diagnosis == diagnosis
            &&& ran.changed == changed
            &&& ran.steps == steps
            &&& result matches Ok(outcome) ==> ran.outcome == outcome && ran.failed is None
            &&& result matches Err(message) ==> {
                &&& ran.failed == Some(message)
                &&& ran.outcome.output.get("error"@) == Some(JsonView::String(message))
                &&& ran.outcome.pending_approvals.len() == 0
                &&& !ran.outcome.cancelled
            }
        }),
{
    if result is Err {
        let entries = ran_of(result, diagnosis, changed, steps).outcome.output->Object_0;
        lemma_member_reads(entries, 0);
    }
}

proof fn lemma_not_run(steps: Seq<StepRecordView>, n: nat, id: Seq<char>)
    requires
        n <= steps.len(),
        forall|k: int| 0 <= k < n ==> (#[trigger] steps[k]).node_id != id,
    ensures
        entry(final_nodes(steps, n), id) is None,
    decreases n,
{
    if n > 0 {
        lemma_not_run(steps, (n - 1) as nat, id);
        lemma_set_member_keeps_others(
            final_nodes(steps, (n - 1) as nat),
            steps[n - 1].node_id,
            bounded(steps[n - 1].output, 4096),
            id,
        );
    } else {
        lemma_no_member(final_nodes(steps, n), id);
    }
}

/// A report says of the run what came back: its approvals, whether it was
/// cancelled, what changed, and the error that ended it, where one did.
pub proof fn reports_say_what_came_back(report: ReportView, diagnosis: JsonView)
    ensures
        ({
            let ran = rebuilt(report, diagnosis);
            &&& ran.outcome.pending_approvals == report.pending_approvals
            &&& ran.outcome.cancelled == report.cancelled
            &&& ran.changed == report.changed
            &&& ran.diagnosis == diagnosis
            &&& ran.failed == report.failed
            &&& ran.steps == report.steps
            &&& report.failed matches Some(message) ==> ran.outcome.output.get("error"@) == Some(
                JsonView::String(message),
            )
            &&& report.failed is None ==> ran.outcome.output.get("error"@) is None
            &&& ran.outcome.output.get("nodes"@) is Some <==> report.steps.len() > 0
        }),
{
    lemma_keys();
    let entries = output_of(report);
    if report.steps.len() > 0 {
        assert(entries[0].0 == "nodes"@);
        lemma_member_reads(entries, 0);
        if report.failed is Some {
            assert(entries[1].0 == "error"@);
            lemma_member_reads(entries, 1);
        } else {
            lemma_no_member(entries, "error"@);
        }
    } else {
        lemma_no_member(entries, "nodes"@);
        if report.failed is Some {
            assert(entries[0].0 == "error"@);
            lemma_member_reads(entries, 0);
        } else {
            lemma_no_member(entries, "error"@);
        }
    }
}

/// Each node that ran is shown with what it emitted last, and in full where that
/// takes no more than four kibibytes; a node that did not run is not shown.
pub proof fn nodes_show_what_they_emitted_last(
    report: ReportView,
    diagnosis: JsonView,
    i: int,
    id: Seq<char>,
)
    requires
        is_last_activation(report.steps, report.steps.len(), i),
        forall|k: int| 0 <= k < report.steps.len() ==> (#[trigger] report.steps[k]).node_id != id,
    ensures
        ({
            let shown = rebuilt(report, diagnosis).outcome.output.at("nodes"@);
            &&& shown.get(report.steps[i].node_id) is Some
            &&& text_bytes(json_text(report.steps[i].output)) <= 4096 ==> shown.get(
                report.steps[i].node_id,
            ) == Some(report.steps[i].output)
            &&& text_bytes(json_text(report.steps[i].output)) > 4096 ==> shown.at(
                report.steps[i].node_id,
            ).get("truncated"@) == Some(JsonView::Bool(true))
            &&& shown.get(id) is None
        }),
{
    lemma_keys();
    let entries = output_of(report);
    assert(entries[0].0 == "nodes"@);
    lemma_member_reads(entries, 0);
    last_activation_wins(report.steps, report.steps.len(), i);
    lemma_not_run(report.steps, report.steps.len(), id);
    if text_bytes(json_text(report.steps[i].output)) > 4096 {
        let kept = bounded(report.steps[i].output, 4096)->Object_0;
        lemma_member_reads(kept, 0);
    }
}

/// A step crosses as what it was: success stays success and error stays error,
/// with its node, its unresolved expressions and its duration, which is held to
/// the longest that fits.
pub proof fn steps_cross_as_what_they_were(step: ExecutionStepView, budget: nat)
    ensures
        ({
            let record = record_of(step, budget);
            &&& record.node_id == step.node_id
            &&& record.status == StepOutcome::Success <==> step.status == StepStatus::Success
            &&& record.status == StepOutcome::Error <==> step.status == StepStatus::Error
            &&& record.null_bindings == step.diagnostics
            &&& step.duration_ms <= u64::MAX ==> record.duration_ms == step.duration_ms
            &&& step.duration_ms > u64::MAX ==> record.duration_ms == u64::MAX
            &&& text_bytes(json_text(step.output)) <= budget ==> record.output == step.output
            &&& step_of(record).status == step.status
        }),
{
}

/// A text takes as many bytes as its parts do, and a character one to four.
pub proof fn bytes_add_up(a: Seq<char>, b: Seq<char>, c: char)
    ensures
        text_bytes(a + b) == text_bytes(a) + text_bytes(b),
        text_bytes(seq![c]) == (if c as u32 <= 0x7f {
            1nat
        } else if c as u32 <= 0x7ff {
            2nat
        } else if c as u32 <= 0xffff {
            3nat
        } else {
            4nat
        }),
    decreases b.len(),
{
    reveal_with_fuel(text_bytes, 2);
    assert(seq![c].drop_last() =~= Seq::empty());
    if b.len() > 0 {
        bytes_add_up(a, b.drop_last(), c);
        assert((a + b).drop_last() =~= a + b.drop_last());
    } else {
        assert(a + b =~= a);
    }
}

/// What stands in for a value that is too large says so, and shows the front of
/// its text.
pub proof fn previews_show_the_front(value: JsonView, budget: nat)
    requires
        text_bytes(json_text(value)) > budget,
    ensures
        bounded(value, budget).get("truncated"@) == Some(JsonView::Bool(true)),
        bounded(value, budget).get("preview"@) == Some(
            JsonView::String(clipped(json_text(value), budget)),
        ),
{
    lemma_keys();
    let entries = bounded(value, budget)->Object_0;
    assert(entries[0].0 == "truncated"@);
    assert(entries[1].0 == "preview"@);
    lemma_member_reads(entries, 0);
    lemma_member_reads(entries, 1);
}

} // verus!
