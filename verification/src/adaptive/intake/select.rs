//! Choosing a stored workflow, or declining to.
use vstd::prelude::*;

use crate::adaptive::contracts::{Approach, ApproachView, Goal, GoalView, Tier};
use crate::adaptive::intake::reply::{ask_request, request_json};
use crate::adaptive::intake::{attempt_view, Attempt, AttemptView, IntakeError, IntakeErrorView};
use crate::json::{copy_members, entry, members, Json, JsonView};
use crate::model::graph::{
    empty_graph, GraphView, WorkflowGraph, WorkflowInput, WorkflowInputView,
};
use crate::text::{decimal, decimal_text, join, joined_text, same, trim, trimmed, views};

verus! {

/// What the chooser is told.
pub const SYSTEM: &'static str = "\
You choose whether a saved workflow already does what a goal asks for.

Return JSON: {\"workflow_id\": str | null, \"why\": str, \"inputs\": {name: value}}

- workflow_id: the id of the workflow that does this, or null.
- why: one line. When you decline, say what is missing — it is read by whoever
  writes the replacement.
- inputs: values for that workflow's declared inputs, taken from the goal. Only
  what the goal actually states; never invent a repository, a path or an id.

Choose one ONLY when it does what the goal asks. A workflow that does something
adjacent is worse than none: it will run to completion and produce confident
work for a job nobody wanted, which costs more than writing a new one.

Prefer a workflow with a record over one without, and weigh both numbers rather
than the ratio — run 40× satisfied 30× is a known quantity, run 1× satisfied 1×
is a coin landing once. A workflow that has never run is still a fair choice
when it plainly matches; it just carries no evidence.";

/// One stored workflow as the chooser sees it.
#[derive(Debug, PartialEq, Eq)]
pub struct Candidate {
    /// The id the choice is made on.
    pub id: String,
    /// What it is called; the id where this is empty.
    pub name: String,
    /// What the model reads to decide.
    pub description: String,
    /// A rough cost.
    pub node_count: usize,
    /// Times chosen and run.
    pub applied: u32,
    /// Times that ended satisfied.
    pub helped: u32,
}

#[verifier::ext_equal]
pub struct CandidateView {
    pub id: Seq<char>,
    pub name: Seq<char>,
    pub description: Seq<char>,
    pub node_count: usize,
    pub applied: u32,
    pub helped: u32,
}

impl View for Candidate {
    type V = CandidateView;

    open spec fn view(&self) -> CandidateView {
        CandidateView {
            id: self.id@,
            name: self.name@,
            description: self.description@,
            node_count: self.node_count,
            applied: self.applied,
            helped: self.helped,
        }
    }
}

impl Clone for Candidate {
    fn clone(&self) -> (r: Self)
        ensures
            r@ == self@,
    {
        Candidate {
            id: self.id.clone(),
            name: self.name.clone(),
            description: self.description.clone(),
            node_count: self.node_count,
            applied: self.applied,
            helped: self.helped,
        }
    }
}

impl CandidateView {
    /// What is known of its runs: both counts, never a rate.
    pub open spec fn record(self) -> Seq<char> {
        if self.applied == 0 {
            "never run"@
        } else {
            "run "@ + decimal(self.applied as nat) + "×, satisfied "@ + decimal(self.helped as nat)
                + "×"@
        }
    }

    /// The lines it is listed by.
    pub open spec fn listing(self) -> Seq<char> {
        "- id: "@ + self.id + "\n  name: "@ + (if self.name.len() == 0 {
            self.id
        } else {
            self.name
        }) + "\n  steps: "@ + decimal(self.node_count as nat) + ", "@ + self.record() + "\n  "@ + (
        if self.description.len() == 0 {
            "(no description — nobody can choose this on purpose)"@
        } else {
            self.description
        })
    }
}

impl Candidate {
    fn record(&self) -> (r: String)
        ensures
            r@ == self@.record(),
    {
        if self.applied == 0 {
            return "never run".to_owned();
        }
        let mut text = "run ".to_owned();
        let applied = decimal_text(self.applied as u64);
        text.append(applied.as_str());
        text.append("×, satisfied ");
        let helped = decimal_text(self.helped as u64);
        text.append(helped.as_str());
        text.append("×");
        text
    }

    /// The lines it is listed by.
    pub fn render(&self) -> (r: String)
        ensures
            r@ == self@.listing(),
    {
        let mut text = "- id: ".to_owned();
        text.append(self.id.as_str());
        text.append("\n  name: ");
        if self.name.as_str().is_empty() {
            text.append(self.id.as_str());
        } else {
            text.append(self.name.as_str());
        }
        text.append("\n  steps: ");
        let steps = decimal_text(self.node_count as u64);
        text.append(steps.as_str());
        text.append(", ");
        let record = self.record();
        text.append(record.as_str());
        text.append("\n  ");
        if self.description.as_str().is_empty() {
            text.append("(no description — nobody can choose this on purpose)");
        } else {
            text.append(self.description.as_str());
        }
        text
    }
}

/// The lines of every candidate.
pub open spec fn listings(candidates: Seq<CandidateView>) -> Seq<Seq<char>> {
    Seq::new(candidates.len(), |i: int| candidates[i].listing())
}

/// What the chooser is asked.
pub open spec fn select_question(
    goal: GoalView,
    candidates: Seq<CandidateView>,
    past: Seq<char>,
) -> Seq<char> {
    "# Goal\n"@ + trimmed(goal.text) + "\n\n# Saved workflows\n"@ + joined_text(
        listings(candidates),
        "\n"@,
    ) + past
}

/// The request that asks which candidate does the job. With nothing to choose
/// from there is nothing to ask.
pub fn select_request(goal: &Goal, candidates: &[Candidate], past: &str) -> (r: Option<Json>)
    ensures
        match r {
            Some(request) => candidates@.len() > 0 && request@ == request_json(
                Tier::Select,
                SYSTEM@,
                select_question(goal@, views(candidates@), past@),
            ),
            None => candidates@.len() == 0,
        },
{
    if candidates.len() == 0 {
        return None;
    }
    let mut lines: Vec<String> = Vec::new();
    let mut i: usize = 0;
    while i < candidates.len()
        invariant
            i <= candidates@.len(),
            lines@.len() == i,
            forall|k: int| 0 <= k < i ==> (#[trigger] lines@[k])@ == candidates@[k]@.listing(),
        decreases candidates@.len() - i,
    {
        lines.push(candidates[i].render());
        i = i + 1;
    }
    assert(views(lines@) =~= listings(views(candidates@)));
    let listing = join(&lines, "\n");
    let wanted = trim(goal.text.as_str());
    let mut user = "# Goal\n".to_owned();
    user.append(wanted.as_str());
    user.append("\n\n# Saved workflows\n");
    user.append(listing.as_str());
    user.append(past);
    Some(ask_request(Tier::Select, SYSTEM, user.as_str()))
}

/// Some candidate has the id.
pub open spec fn is_offered(candidates: Seq<CandidateView>, id: Seq<char>) -> bool {
    exists|i: int| 0 <= i < candidates.len() && (#[trigger] candidates[i]).id == id
}

/// The members of an object; none for any other value.
pub open spec fn members_of(value: JsonView) -> Seq<(Seq<char>, JsonView)> {
    match value {
        JsonView::Object(entries) => entries,
        _ => Seq::empty(),
    }
}

/// The members of an object; none for any other value.
pub fn members_in(value: &Json) -> (r: Vec<(String, Json)>)
    ensures
        members(r@) == members_of(value@),
{
    match value.as_object() {
        Some(entries) => copy_members(entries),
        None => {
            let none: Vec<(String, Json)> = Vec::new();
            assert(members(none@) =~= Seq::empty());
            none
        },
    }
}

/// What an answer chooses: the workflow it names, where it is one of those
/// offered. Anything else is a decline.
pub open spec fn chosen(candidates: Seq<CandidateView>, answer: JsonView) -> Option<AttemptView> {
    match answer.text_at("workflow_id"@) {
        Some(id) => if trimmed(id).len() > 0 && is_offered(candidates, id) {
            Some(
                AttemptView {
                    approach: ApproachView::Selected {
                        workflow_id: id,
                        why: answer.text_or_empty("why"@),
                    },
                    graph: empty_graph(),
                    inputs: members_of(answer.at("inputs"@)),
                    lessons_shown: Seq::empty(),
                },
            )
        } else {
            None
        },
        None => None,
    }
}

fn offers(candidates: &[Candidate], id: &str) -> (r: bool)
    ensures
        r == is_offered(views(candidates@), id@),
{
    let ghost all = views(candidates@);
    let mut i: usize = 0;
    while i < candidates.len()
        invariant
            i <= candidates@.len(),
            all == views(candidates@),
            forall|k: int| 0 <= k < i ==> (#[trigger] all[k]).id != id@,
        decreases candidates@.len() - i,
    {
        assert(all[i as int] == candidates@[i as int]@);
        if same(candidates[i].id.as_str(), id) {
            return true;
        }
        i = i + 1;
    }
    false
}

/// Reads the answer to a selection. Nothing means that nothing fitted.
pub fn select(candidates: &[Candidate], answer: &Json) -> (r: Option<Attempt>)
    ensures
        (match r {
            Some(attempt) => Some(attempt@),
            None => None,
        }) == chosen(views(candidates@), answer@),
{
    let id = match answer.text_at("workflow_id") {
        Some(id) => id,
        None => {
            return None;
        },
    };
    let bare = trim(id);
    if bare.as_str().is_empty() || !offers(candidates, id) {
        return None;
    }
    let given = answer.at("inputs");
    let attempt = Attempt {
        approach: Approach::Selected {
            workflow_id: id.to_owned(),
            why: answer.text_or_empty("why"),
        },
        graph: WorkflowGraph::default(),
        inputs: members_in(&given),
        lessons_shown: Vec::new(),
    };
    assert(attempt@.lessons_shown =~= Seq::empty());
    Some(attempt)
}

/// An input has a value: one that is neither `null` nor the empty text.
pub open spec fn is_filled(inputs: Seq<(Seq<char>, JsonView)>, name: Seq<char>) -> bool {
    match entry(inputs, name) {
        Some(value) => !(value is Null) && value != JsonView::String(Seq::empty()),
        None => false,
    }
}

/// The first required input among those declared that has no value.
pub open spec fn missing_input(
    declared: Seq<WorkflowInputView>,
    inputs: Seq<(Seq<char>, JsonView)>,
) -> Option<Seq<char>>
    decreases declared.len(),
{
    if declared.len() == 0 {
        None
    } else if declared[0].required && !is_filled(inputs, declared[0].name) {
        Some(declared[0].name)
    } else {
        missing_input(declared.drop_first(), inputs)
    }
}

/// What the store gave for an id.
pub open spec fn found_view(found: Result<Option<WorkflowGraph>, String>) -> Result<
    Option<GraphView>,
    Seq<char>,
> {
    match found {
        Ok(Some(graph)) => Ok(Some(graph@)),
        Ok(None) => Ok(None),
        Err(text) => Err(text@),
    }
}

/// A chosen workflow with its graph, where it is still there and every
/// required input has a value. An attempt that selected nothing is left alone.
pub open spec fn bound(
    attempt: AttemptView,
    found: Result<Option<GraphView>, Seq<char>>,
) -> Result<AttemptView, IntakeErrorView> {
    match attempt.approach {
        ApproachView::Selected { workflow_id, .. } => match found {
            Ok(Some(graph)) => match missing_input(graph.inputs, attempt.inputs) {
                Some(name) => Err(IntakeErrorView::Unbindable { id: workflow_id, missing: name }),
                None => Ok(AttemptView { graph, ..attempt }),
            },
            Ok(None) => Err(IntakeErrorView::Store("workflow "@ + workflow_id + " vanished"@)),
            Err(text) => Err(IntakeErrorView::Store(text)),
        },
        _ => Ok(attempt),
    }
}

fn filled(inputs: &Vec<(String, Json)>, name: &str) -> (r: bool)
    ensures
        r == is_filled(members(inputs@), name@),
{
    let ghost all = members(inputs@);
    let mut i: usize = 0;
    assert(all.skip(0) =~= all);
    while i < inputs.len()
        invariant
            i <= inputs@.len(),
            all == members(inputs@),
            entry(all, name@) == entry(all.skip(i as int), name@),
        decreases inputs@.len() - i,
    {
        assert(all.skip(i as int)[0] == (inputs@[i as int].0@, inputs@[i as int].1@));
        assert(all.skip(i as int).drop_first() =~= all.skip(i + 1));
        if same(inputs[i].0.as_str(), name) {
            return match &inputs[i].1 {
                Json::Null => false,
                Json::String(text) => {
                    let empty = text.as_str().is_empty();
                    assert(text@.len() == 0 ==> text@ =~= Seq::empty());
                    !empty
                },
                _ => true,
            };
        }
        i = i + 1;
    }
    assert(all.skip(i as int) =~= Seq::empty());
    false
}

fn find_missing<'a>(declared: &'a Vec<WorkflowInput>, inputs: &Vec<(String, Json)>) -> (r: Option<
    &'a str,
>)
    ensures
        match r {
            Some(name) => missing_input(views(declared@), members(inputs@)) == Some(name@),
            None => missing_input(views(declared@), members(inputs@)) is None,
        },
{
    let ghost all = views(declared@);
    let ghost given = members(inputs@);
    let mut i: usize = 0;
    assert(all.skip(0) =~= all);
    while i < declared.len()
        invariant
            i <= declared@.len(),
            all == views(declared@),
            given == members(inputs@),
            missing_input(all, given) == missing_input(all.skip(i as int), given),
        decreases declared@.len() - i,
    {
        assert(all.skip(i as int)[0] == declared@[i as int]@);
        assert(all.skip(i as int).drop_first() =~= all.skip(i + 1));
        if declared[i].required && !filled(inputs, declared[i].name.as_str()) {
            return Some(declared[i].name.as_str());
        }
        i = i + 1;
    }
    assert(all.skip(i as int) =~= Seq::empty());
    None
}

/// Gives a chosen workflow the graph the store found for it, after checking
/// that every required input has a value.
pub fn bind(attempt: Attempt, found: Result<Option<WorkflowGraph>, String>) -> (r: Result<
    Attempt,
    IntakeError,
>)
    ensures
        attempt_view(r) == bound(attempt@, found_view(found)),
{
    let id = match &attempt.approach {
        Approach::Selected { workflow_id, .. } => workflow_id.clone(),
        _ => {
            return Ok(attempt);
        },
    };
    match found {
        Ok(Some(graph)) => {
            match find_missing(&graph.inputs, &attempt.inputs) {
                Some(name) => {
                    return Err(IntakeError::Unbindable { id, missing: name.to_owned() });
                },
                None => {},
            }
            Ok(
                Attempt {
                    approach: attempt.approach,
                    graph,
                    inputs: attempt.inputs,
                    lessons_shown: attempt.lessons_shown,
                },
            )
        },
        Ok(None) => {
            let mut text = "workflow ".to_owned();
            text.append(id.as_str());
            text.append(" vanished");
            Err(IntakeError::Store(text))
        },
        Err(text) => Err(IntakeError::Store(text)),
    }
}

/// A model that names a workflow nobody offered has declined.
pub proof fn invented_ids_are_declines(candidates: Seq<CandidateView>, answer: JsonView)
    ensures
        chosen(candidates, answer) matches Some(attempt) ==> attempt.approach matches
            ApproachView::Selected { workflow_id, .. } && is_offered(candidates, workflow_id),
{
}

/// A selected attempt that was bound has a value for every input its graph
/// requires.
pub proof fn bound_attempts_are_filled(
    attempt: AttemptView,
    found: Result<Option<GraphView>, Seq<char>>,
    i: int,
)
    requires
        attempt.approach is Selected,
        bound(attempt, found) is Ok,
        0 <= i < bound(attempt, found)->Ok_0.graph.inputs.len(),
        bound(attempt, found)->Ok_0.graph.inputs[i].required,
    ensures
        is_filled(
            bound(attempt, found)->Ok_0.inputs,
            bound(attempt, found)->Ok_0.graph.inputs[i].name,
        ),
{
    lemma_nothing_missing(bound(attempt, found)->Ok_0.graph.inputs, attempt.inputs, i);
}

proof fn lemma_nothing_missing(
    declared: Seq<WorkflowInputView>,
    inputs: Seq<(Seq<char>, JsonView)>,
    i: int,
)
    requires
        missing_input(declared, inputs) is None,
        0 <= i < declared.len(),
        declared[i].required,
    ensures
        is_filled(inputs, declared[i].name),
    decreases declared.len(),
{
    if i > 0 {
        assert(declared.drop_first()[i - 1] == declared[i]);
        lemma_nothing_missing(declared.drop_first(), inputs, i - 1);
    }
}

} // verus!
