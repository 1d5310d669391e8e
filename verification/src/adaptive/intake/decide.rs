//! Deciding how to attempt a goal: prefer a stored workflow, and write a graph
//! only when nothing fits.
//!
//! A decision is a sequence of steps. Each says what the host has to do next,
//! and the function named after the reply says what follows.
use vstd::prelude::*;

use crate::adaptive::contracts::{Goal, GoalView, Tier};
use crate::adaptive::intake::reply::request_json;
use crate::adaptive::intake::select::{
    bind, bound, chosen, found_view, select, select_question, select_request, Candidate,
    CandidateView, SYSTEM,
};
use crate::adaptive::intake::{Attempt, AttemptView, IntakeError, IntakeErrorView};
use crate::adaptive::ledger::{LedgerRow, Lesson, LessonView, RowView};
use crate::adaptive::recall::{history_text, lessons_text, render_history, render_lessons};
use crate::json::{Json, JsonView};
use crate::model::graph::{GraphView, WorkflowGraph};
use crate::text::views;

verus! {

/// What a decision does next.
#[derive(Debug, PartialEq, Eq)]
pub enum DecideStep {
    /// Ask the model to choose, then call [`after_select`].
    Select { request: Json, past: String, retrying: bool },
    /// Look the chosen workflow up, then call [`after_bind`].
    Bind { attempt: Attempt, past: String, retrying: bool },
    /// Ask the model for a graph, telling it the past, then call
    /// [`after_author`].
    Author { past: String },
    /// Run the attempt.
    Done { attempt: Attempt },
    /// Give the decision up.
    Fail { error: IntakeError },
}

#[verifier::ext_equal]
pub enum StepView {
    Select { request: JsonView, past: Seq<char>, retrying: bool },
    Bind { attempt: AttemptView, past: Seq<char>, retrying: bool },
    Author { past: Seq<char> },
    Done { attempt: AttemptView },
    Fail { error: IntakeErrorView },
}

impl View for DecideStep {
    type V = StepView;

    open spec fn view(&self) -> StepView {
        match *self {
            DecideStep::Select { request, past, retrying } => StepView::Select {
                request: request@,
                past: past@,
                retrying,
            },
            DecideStep::Bind { attempt, past, retrying } => StepView::Bind {
                attempt: attempt@,
                past: past@,
                retrying,
            },
            DecideStep::Author { past } => StepView::Author { past: past@ },
            DecideStep::Done { attempt } => StepView::Done { attempt: attempt@ },
            DecideStep::Fail { error } => StepView::Fail { error: error@ },
        }
    }
}

/// What both planners are told of the past: the episode's attempts, and the
/// lessons that were recalled.
pub open spec fn past_text(rows: Seq<RowView>, lessons: Seq<LessonView>) -> Seq<char> {
    history_text(rows) + lessons_text(lessons)
}

/// The ids of the lessons.
pub open spec fn lesson_ids(lessons: Seq<LessonView>) -> Seq<Seq<char>> {
    Seq::new(lessons.len(), |i: int| lessons[i].id)
}

/// What both planners are told of the past.
pub fn render_past(rows: &[LedgerRow], lessons: &[Lesson]) -> (r: String)
    ensures
        r@ == past_text(views(rows@), views(lessons@)),
{
    let mut past = render_history(rows);
    let learned = render_lessons(lessons);
    past.append(learned.as_str());
    past
}

/// The ids of the lessons a planner is shown, to be scored by what comes of
/// the attempt.
pub fn shown_lessons(lessons: &[Lesson]) -> (r: Vec<String>)
    ensures
        views(r@) == lesson_ids(views(lessons@)),
{
    let mut ids: Vec<String> = Vec::new();
    let mut i: usize = 0;
    while i < lessons.len()
        invariant
            i <= lessons@.len(),
            ids@.len() == i,
            forall|k: int| 0 <= k < i ==> (#[trigger] ids@[k])@ == lessons@[k]@.id,
        decreases lessons@.len() - i,
    {
        ids.push(lessons[i].id.clone());
        i = i + 1;
    }
    assert(views(ids@) =~= lesson_ids(views(lessons@)));
    ids
}

/// A selection is asked for where there is something to choose from, and else
/// a graph.
pub open spec fn ask_or_author(
    goal: GoalView,
    candidates: Seq<CandidateView>,
    past: Seq<char>,
    retrying: bool,
) -> StepView {
    if candidates.len() == 0 {
        StepView::Author { past }
    } else {
        StepView::Select {
            request: request_json(
                Tier::Select,
                SYSTEM@,
                select_question(goal, candidates, past),
            ),
            past,
            retrying,
        }
    }
}

fn ask(goal: &Goal, candidates: &[Candidate], past: String, retrying: bool) -> (r: DecideStep)
    ensures
        r@ == ask_or_author(goal@, views(candidates@), past@, retrying),
{
    match select_request(goal, candidates, past.as_str()) {
        Some(request) => DecideStep::Select { request, past, retrying },
        None => DecideStep::Author { past },
    }
}

/// Begins a decision.
pub fn decide(goal: &Goal, candidates: &[Candidate], past: String) -> (r: DecideStep)
    ensures
        r@ == ask_or_author(goal@, views(candidates@), past@, false),
{
    ask(goal, candidates, past, false)
}

/// What follows the answer to a selection: a choice is looked up, and a
/// decline leads to a graph.
pub open spec fn step_after_select(
    candidates: Seq<CandidateView>,
    past: Seq<char>,
    retrying: bool,
    answer: Result<JsonView, IntakeErrorView>,
) -> StepView {
    match answer {
        Ok(value) => match chosen(candidates, value) {
            Some(attempt) => StepView::Bind { attempt, past, retrying },
            None => StepView::Author { past },
        },
        Err(error) => StepView::Fail { error },
    }
}

/// Goes on from the answer to a selection.
pub fn after_select(
    candidates: &[Candidate],
    past: String,
    retrying: bool,
    answer: Result<Json, IntakeError>,
) -> (r: DecideStep)
    ensures
        r@ == step_after_select(
            views(candidates@),
            past@,
            retrying,
            (match answer {
                Ok(value) => Ok(value@),
                Err(error) => Err(error@),
            }),
        ),
{
    match answer {
        Ok(value) => match select(candidates, &value) {
            Some(attempt) => DecideStep::Bind { attempt, past, retrying },
            None => DecideStep::Author { past },
        },
        Err(error) => DecideStep::Fail { error },
    }
}

/// The past, with a selection that did not bind.
pub open spec fn noted(past: Seq<char>, refusal: IntakeErrorView) -> Seq<char> {
    past + "\n\n# A selection just failed to bind\n"@ + refusal.message()
        + "\nSupply a value for every required input this time, or decline so a graph is written instead."@
}

/// An attempt, with the lessons its planner was shown.
pub open spec fn taught(attempt: AttemptView, shown: Seq<Seq<char>>) -> AttemptView {
    AttemptView { lessons_shown: shown, ..attempt }
}

/// What follows a look-up: an attempt that binds is run; one that does not is
/// chosen once more with the refusal on the table, and after that a graph is
/// written.
pub open spec fn step_after_bind(
    goal: GoalView,
    candidates: Seq<CandidateView>,
    past: Seq<char>,
    retrying: bool,
    attempt: AttemptView,
    found: Result<Option<GraphView>, Seq<char>>,
    shown: Seq<Seq<char>>,
) -> StepView {
    match bound(attempt, found) {
        Ok(ready) => StepView::Done { attempt: taught(ready, shown) },
        Err(refusal) => if retrying {
            StepView::Author { past }
        } else {
            ask_or_author(goal, candidates, noted(past, refusal), true)
        },
    }
}

fn teach(attempt: Attempt, shown: Vec<String>) -> (r: Attempt)
    ensures
        r@ == taught(attempt@, views(shown@)),
{
    Attempt {
        approach: attempt.approach,
        graph: attempt.graph,
        inputs: attempt.inputs,
        lessons_shown: shown,
    }
}

/// Goes on from a look-up.
pub fn after_bind(
    goal: &Goal,
    candidates: &[Candidate],
    past: String,
    retrying: bool,
    attempt: Attempt,
    found: Result<Option<WorkflowGraph>, String>,
    shown: Vec<String>,
) -> (r: DecideStep)
    ensures
        r@ == step_after_bind(
            goal@,
            views(candidates@),
            past@,
            retrying,
            attempt@,
            found_view(found),
            views(shown@),
        ),
{
    match bind(attempt, found) {
        Ok(ready) => DecideStep::Done { attempt: teach(ready, shown) },
        Err(refusal) => {
            if retrying {
                return DecideStep::Author { past };
            }
            let message = refusal.message();
            let mut noted_past = past;
            noted_past.append("\n\n# A selection just failed to bind\n");
            noted_past.append(message.as_str());
            noted_past.append(
                "\nSupply a value for every required input this time, or decline so a graph is written instead.",
            );
            ask(goal, candidates, noted_past, true)
        },
    }
}

/// What follows a graph that was written, or could not be.
pub open spec fn step_after_author(
    result: Result<AttemptView, IntakeErrorView>,
    shown: Seq<Seq<char>>,
) -> StepView {
    match result {
        Ok(attempt) => StepView::Done { attempt: taught(attempt, shown) },
        Err(error) => StepView::Fail { error },
    }
}

/// Goes on from a graph that was written, or could not be.
pub fn after_author(result: Result<Attempt, IntakeError>, shown: Vec<String>) -> (r: DecideStep)
    ensures
        r@ == step_after_author(crate::adaptive::intake::attempt_view(result), views(shown@)),
{
    match result {
        Ok(attempt) => DecideStep::Done { attempt: teach(attempt, shown) },
        Err(error) => DecideStep::Fail { error },
    }
}

/// A decision asks for a selection twice at most: the second one that does not
/// bind leads to a graph.
pub proof fn selections_are_retried_once(
    goal: GoalView,
    candidates: Seq<CandidateView>,
    past: Seq<char>,
    attempt: AttemptView,
    found: Result<Option<GraphView>, Seq<char>>,
    shown: Seq<Seq<char>>,
)
    ensures
        !(step_after_bind(goal, candidates, past, true, attempt, found, shown) is Select),
        step_after_bind(
            goal,
            candidates,
            past,
            false,
            attempt,
            found,
            shown,
        ) matches StepView::Select { retrying, .. } ==> retrying,
{
}

/// A selection that does not bind never ends a decision: what follows is
/// another selection, or a graph.
pub proof fn unbindable_choices_do_not_fail(
    goal: GoalView,
    candidates: Seq<CandidateView>,
    past: Seq<char>,
    retrying: bool,
    attempt: AttemptView,
    found: Result<Option<GraphView>, Seq<char>>,
    shown: Seq<Seq<char>>,
)
    requires
        bound(attempt, found) is Err,
    ensures
        step_after_bind(
            goal,
            candidates,
            past,
            retrying,
            attempt,
            found,
            shown,
        ) is Select || step_after_bind(
            goal,
            candidates,
            past,
            retrying,
            attempt,
            found,
            shown,
        ) is Author,
{
}

/// Every attempt that is decided on says which lessons its planner was shown.
pub proof fn attempts_say_what_they_were_taught(
    goal: GoalView,
    candidates: Seq<CandidateView>,
    past: Seq<char>,
    retrying: bool,
    attempt: AttemptView,
    found: Result<Option<GraphView>, Seq<char>>,
    written: Result<AttemptView, IntakeErrorView>,
    shown: Seq<Seq<char>>,
)
    ensures
        step_after_bind(
            goal,
            candidates,
            past,
            retrying,
            attempt,
            found,
            shown,
        ) matches StepView::Done { attempt: ready } ==> ready.lessons_shown == shown,
        step_after_author(written, shown) matches StepView::Done { attempt: ready }
            ==> ready.lessons_shown == shown,
{
}

} // verus!
