//! What holds of every decision how to attempt a goal: what a planner is told, how
//! its answer is read, and what follows from it.
use vstd::prelude::*;

use crate::adaptive::contracts::{ApproachView, GoalView, Tier};
use crate::adaptive::intake::{AttemptView, IntakeErrorView};
use crate::adaptive::intake::author::{
    author_question, authored, catalogue_text, checked, contract_text, contract_texts, field_line,
    field_lines, hex_digit, hex_tail, mark_of, port_line, problem_texts, refusal,
};
use crate::adaptive::intake::decide::{
    ask_or_author, lesson_ids, noted, past_text, step_after_author, step_after_bind,
    step_after_select, StepView,
};
use crate::adaptive::intake::reply::{
    char_bytes, clipped, clipping_keeps_a_front_part, found_in, object_among, read_as, request_json,
};
use crate::adaptive::intake::select::{
    bound, chosen, is_filled, listings, missing_input, select_question, CandidateView, SYSTEM,
};
use crate::adaptive::ledger::{LessonView, RowView};
use crate::adaptive::recall::{
    history_text, lesson_line, lesson_lines, lessons_text, row_line, row_lines,
};
use crate::catalog::contracts::{every_contract, ContractView, FieldView};
use crate::evidence::text_bytes;
use crate::json::{entry, lemma_member_reads, JsonView};
use crate::json_text::parsed_json;
use crate::model::graph::{GraphView, WorkflowInputView};
use crate::text::{
    decimal, joined_text, lemma_occurs_between, lemma_occurs_itself, lemma_occurs_last,
    lemma_occurs_on, lemma_occurs_within, lemma_parts_occur, occurs_in, trimmed,
};
use crate::validate::graph_errors;

verus! {

proof fn lemma_request_keys()
    ensures
        "tier"@ != "messages"@,
        "tier"@ != "response_format"@,
        "tier"@ != "role"@,
        "tier"@ != "content"@,
        "tier"@ != "type"@,
        "messages"@ != "response_format"@,
        "messages"@ != "role"@,
        "messages"@ != "content"@,
        "messages"@ != "type"@,
        "response_format"@ != "role"@,
        "response_format"@ != "content"@,
        "response_format"@ != "type"@,
        "role"@ != "content"@,
        "role"@ != "type"@,
        "content"@ != "type"@,
{
    reveal_strlit("tier");
    reveal_strlit("messages");
    reveal_strlit("response_format");
    reveal_strlit("role");
    reveal_strlit("content");
    reveal_strlit("type");
    assert("tier"@.len() == 4 && "messages"@.len() == 8 && "response_format"@.len() == 15 && "role"@.len() == 4 && "content"@.len() == 7 && "type"@.len() == 4);
    assert("tier"@[0] == 't');
    assert("role"@[0] == 'r');
    assert("tier"@[1] == 'i');
    assert("type"@[1] == 'y');
    assert("type"@[0] == 't');
}

proof fn lemma_tier_names()
    ensures
        "select"@ != "author"@,
        "select"@ != "judge"@,
        "author"@ != "judge"@,
{
    reveal_strlit("select");
    reveal_strlit("author");
    reveal_strlit("judge");
    assert("select"@.len() == 6 && "author"@.len() == 6 && "judge"@.len() == 5);
    assert("select"@[0] == 's');
    assert("author"@[0] == 'a');
}

/// A request says which job it is for, tells the model first what it is and then
/// what is asked, and wants one object.
pub proof fn requests_tell_the_model_what_is_asked(tier: Tier, system: Seq<char>, user: Seq<char>)
    ensures
        ({
            let request = request_json(tier, system, user);
            let messages = request.at("messages"@)->Array_0;
            &&& tier is Select ==> request.get("tier"@) == Some(JsonView::String("select"@))
            &&& tier is Author ==> request.get("tier"@) == Some(JsonView::String("author"@))
            &&& tier is Judge ==> request.get("tier"@) == Some(JsonView::String("judge"@))
            &&& request.at("messages"@) is Array
            &&& messages.len() == 2
            &&& messages[0].get("role"@) == Some(JsonView::String("system"@))
            &&& messages[0].get("content"@) == Some(JsonView::String(system))
            &&& messages[1].get("role"@) == Some(JsonView::String("user"@))
            &&& messages[1].get("content"@) == Some(JsonView::String(user))
            &&& request.at("response_format"@).get("type"@) == Some(
                JsonView::String("json_object"@),
            )
        }),
{
    lemma_request_keys();
    let request = request_json(tier, system, user)->Object_0;
    lemma_member_reads(request, 0);
    lemma_member_reads(request, 1);
    lemma_member_reads(request, 2);
    let told = request[1].1->Array_0;
    lemma_member_reads(told[0]->Object_0, 0);
    lemma_member_reads(told[0]->Object_0, 1);
    lemma_member_reads(told[1]->Object_0, 0);
    lemma_member_reads(told[1]->Object_0, 1);
    lemma_member_reads(request[2].1->Object_0, 0);
}

/// A candidate is listed with its id, its description, its steps, and both counts
/// of its record; one that never ran is said to have none.
pub proof fn listings_show_the_record(c: CandidateView)
    ensures
        occurs_in(c.listing(), c.id),
        c.name.len() > 0 ==> occurs_in(c.listing(), c.name),
        c.description.len() > 0 ==> occurs_in(c.listing(), c.description),
        occurs_in(c.listing(), decimal(c.node_count as nat)),
        c.applied == 0 ==> occurs_in(c.listing(), "never run"@),
        c.applied > 0 ==> occurs_in(
            c.listing(),
            "run "@ + decimal(c.applied as nat) + "×, satisfied "@ + decimal(c.helped as nat)
                + "×"@,
        ),
{
    let name = if c.name.len() == 0 {
        c.id
    } else {
        c.name
    };
    let steps = decimal(c.node_count as nat);
    let record = c.record();
    let told = if c.description.len() == 0 {
        "(no description — nobody can choose this on purpose)"@
    } else {
        c.description
    };
    let w0 = "- id: "@;
    let w1 = w0 + c.id;
    let w2 = w1 + "\n  name: "@;
    let w3 = w2 + name;
    let w4 = w3 + "\n  steps: "@;
    let w5 = w4 + steps;
    let w6 = w5 + ", "@;
    let w7 = w6 + record;
    let w8 = w7 + "\n  "@;
    let w9 = w8 + told;
    lemma_occurs_last(w0, c.id);
    lemma_occurs_on(w1, "\n  name: "@, c.id);
    lemma_occurs_on(w2, name, c.id);
    lemma_occurs_on(w3, "\n  steps: "@, c.id);
    lemma_occurs_on(w4, steps, c.id);
    lemma_occurs_on(w5, ", "@, c.id);
    lemma_occurs_on(w6, record, c.id);
    lemma_occurs_on(w7, "\n  "@, c.id);
    lemma_occurs_on(w8, told, c.id);
    lemma_occurs_last(w2, name);
    lemma_occurs_on(w3, "\n  steps: "@, name);
    lemma_occurs_on(w4, steps, name);
    lemma_occurs_on(w5, ", "@, name);
    lemma_occurs_on(w6, record, name);
    lemma_occurs_on(w7, "\n  "@, name);
    lemma_occurs_on(w8, told, name);
    lemma_occurs_last(w4, steps);
    lemma_occurs_on(w5, ", "@, steps);
    lemma_occurs_on(w6, record, steps);
    lemma_occurs_on(w7, "\n  "@, steps);
    lemma_occurs_on(w8, told, steps);
    lemma_occurs_last(w6, record);
    lemma_occurs_on(w7, "\n  "@, record);
    lemma_occurs_on(w8, told, record);
    lemma_occurs_last(w8, told);
}

/// Whoever chooses is told the goal, every candidate there is, and the past.
pub proof fn choosers_see_every_candidate(
    goal: GoalView,
    candidates: Seq<CandidateView>,
    past: Seq<char>,
    i: int,
)
    requires
        0 <= i < candidates.len(),
    ensures
        occurs_in(select_question(goal, candidates, past), trimmed(goal.text)),
        occurs_in(select_question(goal, candidates, past), candidates[i].listing()),
        occurs_in(select_question(goal, candidates, past), candidates[i].id),
        past.is_suffix_of(select_question(goal, candidates, past)),
{
    let whole = select_question(goal, candidates, past);
    let wanted = trimmed(goal.text);
    let listed = joined_text(listings(candidates), "\n"@);
    let w0 = "# Goal\n"@;
    let w1 = w0 + wanted;
    let w2 = w1 + "\n\n# Saved workflows\n"@;
    let w3 = w2 + listed;
    let w4 = w3 + past;
    lemma_occurs_last(w0, wanted);
    lemma_occurs_on(w1, "\n\n# Saved workflows\n"@, wanted);
    lemma_occurs_on(w2, listed, wanted);
    lemma_occurs_on(w3, past, wanted);
    lemma_occurs_last(w2, listed);
    lemma_occurs_on(w3, past, listed);
    lemma_parts_occur(listings(candidates), "\n"@, i);
    assert(listings(candidates)[i] == candidates[i].listing());
    lemma_occurs_within(whole, listed, candidates[i].listing());
    listings_show_the_record(candidates[i]);
    lemma_occurs_within(whole, candidates[i].listing(), candidates[i].id);
    assert(whole.subrange(whole.len() - past.len(), whole.len() as int) =~= past);
}

/// An answer that names a candidate chooses it, for the reason and with the
/// inputs it gives; any other answer declines.
pub proof fn named_candidates_are_chosen(
    candidates: Seq<CandidateView>,
    answer: JsonView,
    i: int,
    why: Seq<char>,
    inputs: Seq<(Seq<char>, JsonView)>,
)
    requires
        0 <= i < candidates.len(),
    ensures
        answer.get("workflow_id"@) == Some(JsonView::String(candidates[i].id)) && trimmed(
            candidates[i].id,
        ).len() > 0 && answer.get("why"@) == Some(JsonView::String(why)) && answer.get("inputs"@)
            == Some(JsonView::Object(inputs)) ==> {
            &&& chosen(candidates, answer) is Some
            &&& chosen(candidates, answer)->0.approach == (ApproachView::Selected {
                workflow_id: candidates[i].id,
                why,
            })
            &&& chosen(candidates, answer)->0.inputs == inputs
        },
        answer.get("workflow_id"@) is None ==> chosen(candidates, answer) is None,
        answer.get("workflow_id"@) == Some(JsonView::Null) ==> chosen(candidates, answer) is None,
{
}

/// An input has a value where one is given that is neither `null` nor an empty
/// text.
pub proof fn given_values_fill_inputs(
    inputs: Seq<(Seq<char>, JsonView)>,
    name: Seq<char>,
    text: Seq<char>,
    flag: bool,
)
    ensures
        entry(inputs, name) is None ==> !is_filled(inputs, name),
        entry(inputs, name) == Some(JsonView::Null) ==> !is_filled(inputs, name),
        entry(inputs, name) == Some(JsonView::String(text)) ==> (is_filled(inputs, name)
            <==> text.len() > 0),
        entry(inputs, name) == Some(JsonView::Bool(flag)) ==> is_filled(inputs, name),
{
    if text.len() == 0 {
        assert(text =~= Seq::empty());
    }
}

proof fn lemma_missing(
    declared: Seq<WorkflowInputView>,
    inputs: Seq<(Seq<char>, JsonView)>,
    i: int,
)
    requires
        0 <= i < declared.len(),
        declared[i].required,
        !is_filled(inputs, declared[i].name),
        forall|k: int|
            0 <= k < i ==> !(#[trigger] declared[k]).required || is_filled(
                inputs,
                declared[k].name,
            ),
    ensures
        missing_input(declared, inputs) == Some(declared[i].name),
    decreases i,
{
    if i > 0 {
        let rest = declared.drop_first();
        assert(rest[i - 1] == declared[i]);
        assert forall|k: int| 0 <= k < i - 1 implies !(#[trigger] rest[k]).required || is_filled(
            inputs,
            rest[k].name,
        ) by {
            assert(rest[k] == declared[k + 1]);
        }
        assert(!declared[0].required || is_filled(inputs, declared[0].name));
        lemma_missing(rest, inputs, i - 1);
    }
}

proof fn lemma_none_missing(declared: Seq<WorkflowInputView>, inputs: Seq<(Seq<char>, JsonView)>)
    requires
        forall|k: int|
            0 <= k < declared.len() ==> !(#[trigger] declared[k]).required || is_filled(
                inputs,
                declared[k].name,
            ),
    ensures
        missing_input(declared, inputs) is None,
    decreases declared.len(),
{
    if declared.len() > 0 {
        let rest = declared.drop_first();
        assert forall|k: int| 0 <= k < rest.len() implies !(#[trigger] rest[k]).required
            || is_filled(inputs, rest[k].name) by {
            assert(rest[k] == declared[k + 1]);
        }
        assert(!declared[0].required || is_filled(inputs, declared[0].name));
        lemma_none_missing(rest, inputs);
    }
}

/// A chosen workflow is bound to the graph that is found for it, exactly where
/// every input that this requires has a value. The first one that has none is
/// named; so is a workflow that is not there; and an error of the store is passed
/// on.
pub proof fn choices_are_bound_where_their_inputs_are_given(
    attempt: AttemptView,
    graph: GraphView,
    failure: Seq<char>,
    i: int,
)
    requires
        attempt.approach is Selected,
    ensures
        (forall|k: int|
            0 <= k < graph.inputs.len() ==> !(#[trigger] graph.inputs[k]).required || is_filled(
                attempt.inputs,
                graph.inputs[k].name,
            )) ==> {
            &&& bound(attempt, Ok(Some(graph))) is Ok
            &&& bound(attempt, Ok(Some(graph)))->Ok_0.graph == graph
            &&& bound(attempt, Ok(Some(graph)))->Ok_0.inputs == attempt.inputs
            &&& bound(attempt, Ok(Some(graph)))->Ok_0.approach == attempt.approach
        },
        0 <= i < graph.inputs.len() && graph.inputs[i].required && !is_filled(
            attempt.inputs,
            graph.inputs[i].name,
        ) && (forall|k: int|
            0 <= k < i ==> !(#[trigger] graph.inputs[k]).required || is_filled(
                attempt.inputs,
                graph.inputs[k].name,
            )) ==> bound(attempt, Ok(Some(graph))) == Err::<AttemptView, IntakeErrorView>(
            IntakeErrorView::Unbindable {
                id: attempt.approach->Selected_workflow_id,
                missing: graph.inputs[i].name,
            },
        ),
        bound(attempt, Err(failure)) == Err::<AttemptView, IntakeErrorView>(
            IntakeErrorView::Store(failure),
        ),
        bound(attempt, Ok(None)) is Err && bound(attempt, Ok(None))->Err_0 is Store && occurs_in(
            bound(attempt, Ok(None))->Err_0->Store_0,
            attempt.approach->Selected_workflow_id,
        ),
{
    if forall|k: int|
        0 <= k < graph.inputs.len() ==> !(#[trigger] graph.inputs[k]).required || is_filled(
            attempt.inputs,
            graph.inputs[k].name,
        ) {
        lemma_none_missing(graph.inputs, attempt.inputs);
    }
    if 0 <= i < graph.inputs.len() && graph.inputs[i].required && !is_filled(
        attempt.inputs,
        graph.inputs[i].name,
    ) && (forall|k: int|
        0 <= k < i ==> !(#[trigger] graph.inputs[k]).required || is_filled(
            attempt.inputs,
            graph.inputs[k].name,
        )) {
        lemma_missing(graph.inputs, attempt.inputs, i);
    }
    lemma_occurs_between("workflow "@, attempt.approach->Selected_workflow_id, " vanished"@);
}

/// An attempt that chose nothing has nothing to be bound to.
pub proof fn written_attempts_stay_as_they_are(
    attempt: AttemptView,
    found: Result<Option<GraphView>, Seq<char>>,
)
    requires
        !(attempt.approach is Selected),
    ensures
        bound(attempt, found) == Ok::<AttemptView, IntakeErrorView>(attempt),
{
}

/// Where there is nothing to choose from, a graph is written; where there is, the
/// model is asked about just those candidates, with the past it is to know.
pub proof fn choices_are_asked_for_where_there_are_any(
    goal: GoalView,
    candidates: Seq<CandidateView>,
    past: Seq<char>,
    retrying: bool,
)
    ensures
        candidates.len() == 0 ==> ask_or_author(goal, candidates, past, retrying) == (
        StepView::Author { past }),
        candidates.len() > 0 ==> {
            let step = ask_or_author(goal, candidates, past, retrying);
            &&& step is Select
            &&& step->Select_past == past
            &&& step->Select_retrying == retrying
            &&& step->Select_request.at("messages"@)->Array_0[1].get("content"@) == Some(
                JsonView::String(select_question(goal, candidates, past)),
            )
            &&& step->Select_request.get("tier"@) == Some(JsonView::String("select"@))
        },
{
    if candidates.len() > 0 {
        requests_tell_the_model_what_is_asked(
            Tier::Select,
            SYSTEM@,
            select_question(goal, candidates, past),
        );
    }
}

/// A choice is looked up, a decline has a graph written, and an answer that did
/// not come ends the decision with its error.
pub proof fn answers_are_followed(
    candidates: Seq<CandidateView>,
    past: Seq<char>,
    retrying: bool,
    answer: JsonView,
    error: IntakeErrorView,
)
    ensures
        chosen(candidates, answer) matches Some(attempt) ==> step_after_select(
            candidates,
            past,
            retrying,
            Ok(answer),
        ) == (StepView::Bind { attempt, past, retrying }),
        chosen(candidates, answer) is None ==> step_after_select(
            candidates,
            past,
            retrying,
            Ok(answer),
        ) == (StepView::Author { past }),
        step_after_select(candidates, past, retrying, Err(error)) == (StepView::Fail { error }),
{
}

/// What binds is run as it was bound. What does not is chosen once more, with the
/// reason told behind the past; and if that was the second time, a graph is
/// written, from the past as it was.
pub proof fn bindings_are_followed(
    goal: GoalView,
    candidates: Seq<CandidateView>,
    past: Seq<char>,
    attempt: AttemptView,
    found: Result<Option<GraphView>, Seq<char>>,
    shown: Seq<Seq<char>>,
    retrying: bool,
)
    requires
        candidates.len() > 0,
    ensures
        ({
            let step = step_after_bind(goal, candidates, past, retrying, attempt, found, shown);
            &&& bound(attempt, found) matches Ok(ready) ==> {
                &&& step is Done
                &&& step->Done_attempt.graph == ready.graph
                &&& step->Done_attempt.inputs == ready.inputs
                &&& step->Done_attempt.approach == ready.approach
                &&& step->Done_attempt.lessons_shown == shown
            }
            &&& bound(attempt, found) matches Err(why) ==> {
                &&& retrying ==> step == (StepView::Author { past })
                &&& !retrying ==> {
                    &&& step is Select
                    &&& step->Select_retrying
                    &&& past.is_prefix_of(step->Select_past)
                    &&& occurs_in(step->Select_past, why.message())
                }
            }
        }),
{
    if bound(attempt, found) is Err {
        let why = bound(attempt, found)->Err_0;
        let whole = noted(past, why);
        let said = why.message();
        let head = "\n\n# A selection just failed to bind\n"@;
        let tail =
            "\nSupply a value for every required input this time, or decline so a graph is written instead."@;
        assert(whole =~= (past + head) + said + tail);
        lemma_occurs_between(past + head, said, tail);
        assert(whole.subrange(0, past.len() as int) =~= past);
    }
}

/// A graph that was written is run with what its author was taught, and one that
/// could not be ends the decision with the reason.
pub proof fn written_graphs_are_followed(
    written: AttemptView,
    error: IntakeErrorView,
    shown: Seq<Seq<char>>,
)
    ensures
        ({
            let step = step_after_author(Ok(written), shown);
            &&& step is Done
            &&& step->Done_attempt.graph == written.graph
            &&& step->Done_attempt.inputs == written.inputs
            &&& step->Done_attempt.approach == written.approach
            &&& step->Done_attempt.lessons_shown == shown
        }),
        step_after_author(Err(error), shown) == (StepView::Fail { error }),
{
}

/// A problem of deciding is told with what it is about.
pub proof fn problems_are_told_in_words(text: Seq<char>, id: Seq<char>)
    ensures
        text.is_suffix_of(IntakeErrorView::Store(text).message()),
        text.is_suffix_of(IntakeErrorView::Inference(text).message()),
        text.is_suffix_of(IntakeErrorView::Invalid(text).message()),
        text.is_suffix_of(IntakeErrorView::Unsupported(text).message()),
        text.is_suffix_of((IntakeErrorView::Unbindable { id, missing: text }).message()),
        occurs_in((IntakeErrorView::Unbindable { id, missing: text }).message(), id),
{
    let a = IntakeErrorView::Store(text).message();
    let b = IntakeErrorView::Inference(text).message();
    let c = IntakeErrorView::Invalid(text).message();
    let d = IntakeErrorView::Unsupported(text).message();
    let e = (IntakeErrorView::Unbindable { id, missing: text }).message();
    assert(a.subrange(a.len() - text.len(), a.len() as int) =~= text);
    assert(b.subrange(b.len() - text.len(), b.len() as int) =~= text);
    assert(c.subrange(c.len() - text.len(), c.len() as int) =~= text);
    assert(d.subrange(d.len() - text.len(), d.len() as int) =~= text);
    assert(e.subrange(e.len() - text.len(), e.len() as int) =~= text);
    assert(e =~= "workflow "@ + id + (" needs an input nothing supplied: "@ + text));
    lemma_occurs_between("workflow "@, id, " needs an input nothing supplied: "@ + text);
}

/// A row is told with its approach, its outcome and what is still missing.
pub proof fn rows_are_told_in_full(row: RowView)
    ensures
        occurs_in(row_line(row), decimal(row.attempt as nat)),
        occurs_in(row_line(row), row.approach_sig),
        occurs_in(row_line(row), row.approach_desc),
        occurs_in(row_line(row), row.outcome),
        row.cause.len() > 0 ==> occurs_in(row_line(row), row.cause),
{
    let count = decimal(row.attempt as nat);
    let because = if row.cause.len() == 0 {
        Seq::empty()
    } else {
        "\n  still missing: "@ + row.cause
    };
    let w0 = count;
    let w1 = w0 + ". ["@;
    let w2 = w1 + row.approach_sig;
    let w3 = w2 + "] "@;
    let w4 = w3 + row.approach_desc;
    let w5 = w4 + " → "@;
    let w6 = w5 + row.outcome;
    let w7 = w6 + because;
    lemma_occurs_itself(w0);
    lemma_occurs_on(w0, ". ["@, count);
    lemma_occurs_on(w1, row.approach_sig, count);
    lemma_occurs_on(w2, "] "@, count);
    lemma_occurs_on(w3, row.approach_desc, count);
    lemma_occurs_on(w4, " → "@, count);
    lemma_occurs_on(w5, row.outcome, count);
    lemma_occurs_on(w6, because, count);
    lemma_occurs_last(w1, row.approach_sig);
    lemma_occurs_on(w2, "] "@, row.approach_sig);
    lemma_occurs_on(w3, row.approach_desc, row.approach_sig);
    lemma_occurs_on(w4, " → "@, row.approach_sig);
    lemma_occurs_on(w5, row.outcome, row.approach_sig);
    lemma_occurs_on(w6, because, row.approach_sig);
    lemma_occurs_last(w3, row.approach_desc);
    lemma_occurs_on(w4, " → "@, row.approach_desc);
    lemma_occurs_on(w5, row.outcome, row.approach_desc);
    lemma_occurs_on(w6, because, row.approach_desc);
    lemma_occurs_last(w5, row.outcome);
    lemma_occurs_on(w6, because, row.outcome);
    lemma_occurs_last(w6, because);
    if row.cause.len() > 0 {
        lemma_occurs_last("\n  still missing: "@, row.cause);
        lemma_occurs_within(row_line(row), because, row.cause);
    }
}

/// A lesson is told with what calls for it, what it claims and why, and with its
/// record: both counts once it was applied, and that it never was before.
pub proof fn lessons_are_told_in_full(lesson: LessonView)
    ensures
        occurs_in(lesson_line(lesson), lesson.trigger),
        occurs_in(lesson_line(lesson), lesson.claim),
        lesson.mechanism.len() > 0 ==> occurs_in(lesson_line(lesson), lesson.mechanism),
        lesson.applied == 0 ==> occurs_in(lesson_line(lesson), "not yet applied"@),
        lesson.applied > 0 ==> occurs_in(
            lesson_line(lesson),
            "applied "@ + decimal(lesson.applied as nat) + "×, helped "@ + decimal(
                lesson.helped as nat,
            ) + "×"@,
        ),
{
    let mechanism = if lesson.mechanism.len() == 0 {
        Seq::empty()
    } else {
        " ("@ + lesson.mechanism + ")"@
    };
    let record = if lesson.applied == 0 {
        "not yet applied"@
    } else {
        "applied "@ + decimal(lesson.applied as nat) + "×, helped "@ + decimal(
            lesson.helped as nat,
        ) + "×"@
    };
    let w0 = "- when "@;
    let w1 = w0 + lesson.trigger;
    let w2 = w1 + ": "@;
    let w3 = w2 + lesson.claim;
    let w4 = w3 + mechanism;
    let w5 = w4 + " ["@;
    let w6 = w5 + record;
    let w7 = w6 + "]"@;
    lemma_occurs_last(w0, lesson.trigger);
    lemma_occurs_on(w1, ": "@, lesson.trigger);
    lemma_occurs_on(w2, lesson.claim, lesson.trigger);
    lemma_occurs_on(w3, mechanism, lesson.trigger);
    lemma_occurs_on(w4, " ["@, lesson.trigger);
    lemma_occurs_on(w5, record, lesson.trigger);
    lemma_occurs_on(w6, "]"@, lesson.trigger);
    lemma_occurs_last(w2, lesson.claim);
    lemma_occurs_on(w3, mechanism, lesson.claim);
    lemma_occurs_on(w4, " ["@, lesson.claim);
    lemma_occurs_on(w5, record, lesson.claim);
    lemma_occurs_on(w6, "]"@, lesson.claim);
    lemma_occurs_last(w3, mechanism);
    lemma_occurs_on(w4, " ["@, mechanism);
    lemma_occurs_on(w5, record, mechanism);
    lemma_occurs_on(w6, "]"@, mechanism);
    lemma_occurs_last(w5, record);
    lemma_occurs_on(w6, "]"@, record);
    if lesson.mechanism.len() > 0 {
        lemma_occurs_between(" ("@, lesson.mechanism, ")"@);
        lemma_occurs_within(lesson_line(lesson), mechanism, lesson.mechanism);
    }
}

/// Planners are told of every attempt of the episode, of every lesson that was
/// recalled, and of nothing where there is neither.
pub proof fn planners_are_told_the_past(
    rows: Seq<RowView>,
    lessons: Seq<LessonView>,
    i: int,
    k: int,
)
    ensures
        0 <= i < rows.len() ==> occurs_in(past_text(rows, lessons), row_line(rows[i])) && occurs_in(
            past_text(rows, lessons),
            rows[i].approach_sig,
        ),
        0 <= k < lessons.len() ==> occurs_in(past_text(rows, lessons), lesson_line(lessons[k]))
            && occurs_in(past_text(rows, lessons), lessons[k].claim) && lesson_ids(lessons)[k]
            == lessons[k].id,
        rows.len() == 0 && lessons.len() == 0 ==> past_text(rows, lessons).len() == 0,
        lesson_ids(lessons).len() == lessons.len(),
{
    let whole = past_text(rows, lessons);
    let tried = history_text(rows);
    let learned = lessons_text(lessons);
    if 0 <= i < rows.len() {
        let line = row_line(rows[i]);
        let lines = joined_text(row_lines(rows), "\n"@);
        lemma_parts_occur(row_lines(rows), "\n"@, i);
        assert(row_lines(rows)[i] == line);
        lemma_occurs_last(
            "\n\n# Already tried this episode — do not propose any of these again\n"@,
            lines,
        );
        lemma_occurs_within(tried, lines, line);
        lemma_occurs_on(tried, learned, line);
        rows_are_told_in_full(rows[i]);
        lemma_occurs_within(whole, line, rows[i].approach_sig);
    }
    if 0 <= k < lessons.len() {
        let line = lesson_line(lessons[k]);
        let lines = joined_text(lesson_lines(lessons), "\n"@);
        lemma_parts_occur(lesson_lines(lessons), "\n"@, k);
        assert(lesson_lines(lessons)[k] == line);
        lemma_occurs_last("\n\n# Learned from earlier episodes\n"@, lines);
        lemma_occurs_within(learned, lines, line);
        lemma_occurs_last(tried, learned);
        lemma_occurs_within(whole, learned, line);
        lessons_are_told_in_full(lessons[k]);
        lemma_occurs_within(whole, line, lessons[k].claim);
    }
}

/// Whoever writes a graph is told the goal, every kind of node with its summary
/// and its fields, what the host permits, and the past.
pub proof fn authors_see_every_kind(
    goal: GoalView,
    others: Seq<ContractView>,
    permitted: Seq<char>,
    past: Seq<char>,
    i: int,
    f: int,
)
    requires
        0 <= i < every_contract(others).len(),
    ensures
        ({
            let whole = author_question(goal, others, permitted, past);
            let contract = every_contract(others)[i];
            &&& occurs_in(whole, trimmed(goal.text))
            &&& occurs_in(whole, contract.kind)
            &&& occurs_in(whole, contract.summary)
            &&& 0 <= f < contract.config_fields.len() ==> occurs_in(
                whole,
                contract.config_fields[f].name,
            ) && occurs_in(whole, contract.config_fields[f].value_type)
            &&& occurs_in(whole, permitted)
            &&& past.is_suffix_of(whole)
        }),
{
    let whole = author_question(goal, others, permitted, past);
    let contract = every_contract(others)[i];
    let none = Seq::<char>::empty();
    let wanted = trimmed(goal.text);
    let kinds = catalogue_text(others);
    let allowed = if permitted.len() == 0 {
        none
    } else {
        "\n\n"@ + permitted
    };
    let w0 = "# Goal\n"@;
    let w1 = w0 + wanted;
    let w2 = w1 + "\n\n# Node catalogue — the only kinds and fields that exist\n"@;
    let w3 = w2 + kinds;
    let w4 = w3 + allowed;
    let w5 = w4 + past;
    lemma_occurs_last(w0, wanted);
    lemma_occurs_on(w1, "\n\n# Node catalogue — the only kinds and fields that exist\n"@, wanted);
    lemma_occurs_on(w2, kinds, wanted);
    lemma_occurs_on(w3, allowed, wanted);
    lemma_occurs_on(w4, past, wanted);
    lemma_occurs_last(w2, kinds);
    lemma_occurs_on(w3, allowed, kinds);
    lemma_occurs_on(w4, past, kinds);
    lemma_occurs_last(w3, allowed);
    lemma_occurs_on(w4, past, allowed);
    if permitted.len() == 0 {
        assert(permitted =~= none);
    } else {
        assert(allowed =~= "\n\n"@ + permitted + none);
        lemma_occurs_between("\n\n"@, permitted, none);
        lemma_occurs_within(whole, allowed, permitted);
    }
    assert(whole.subrange(whole.len() - past.len(), whole.len() as int) =~= past);
    let text = contract_text(contract);
    lemma_parts_occur(contract_texts(every_contract(others)), "\n"@, i);
    assert(contract_texts(every_contract(others))[i] == text);
    lemma_occurs_within(whole, kinds, text);
    let ports = port_line(contract.ports.outputs);
    let fields = joined_text(field_lines(contract.config_fields), "\n"@);
    let t0 = contract.kind;
    let t1 = t0 + ": "@;
    let t2 = t1 + contract.summary;
    let t3 = t2 + "\n"@;
    let t4 = t3 + ports;
    let t5 = t4 + fields;
    lemma_occurs_itself(t0);
    lemma_occurs_on(t0, ": "@, contract.kind);
    lemma_occurs_on(t1, contract.summary, contract.kind);
    lemma_occurs_on(t2, "\n"@, contract.kind);
    lemma_occurs_on(t3, ports, contract.kind);
    lemma_occurs_on(t4, fields, contract.kind);
    lemma_occurs_last(t1, contract.summary);
    lemma_occurs_on(t2, "\n"@, contract.summary);
    lemma_occurs_on(t3, ports, contract.summary);
    lemma_occurs_on(t4, fields, contract.summary);
    lemma_occurs_last(t4, fields);
    lemma_occurs_within(whole, text, contract.kind);
    lemma_occurs_within(whole, text, contract.summary);
    if 0 <= f < contract.config_fields.len() {
        let field = contract.config_fields[f];
        lemma_parts_occur(field_lines(contract.config_fields), "\n"@, f);
        assert(field_lines(contract.config_fields)[f] == field_line(field));
        lemma_occurs_within(text, fields, field_line(field));
        lemma_occurs_within(whole, text, field_line(field));
        fields_are_told_in_full(field, 0);
        lemma_occurs_within(whole, field_line(field), field.name);
        lemma_occurs_within(whole, field_line(field), field.value_type);
    }
}

/// A field is told with its name and its type, marked where it is required, and
/// with every value it allows, where only some are.
pub proof fn fields_are_told_in_full(field: FieldView, v: int)
    ensures
        occurs_in(field_line(field), field.name),
        occurs_in(field_line(field), field.value_type),
        field.required <==> field_line(field)[4] == '*',
        field.enum_values is Some && 0 <= v < field.enum_values->0.len() ==> occurs_in(
            field_line(field),
            field.enum_values->0[v],
        ),
{
    let line = field_line(field);
    let none = Seq::<char>::empty();
    let mark = if field.required {
        "*"@
    } else {
        " "@
    };
    let values = match field.enum_values {
        Some(values) => if values.len() > 0 {
            " ["@ + joined_text(values, "|"@) + "]"@
        } else {
            none
        },
        None => none,
    };
    reveal_strlit("    ");
    reveal_strlit("*");
    reveal_strlit(" ");
    assert("    "@.len() == 4 && "*"@.len() == 1 && " "@.len() == 1);
    assert("*"@[0] == '*' && " "@[0] == ' ');
    let w0 = "    "@;
    let w1 = w0 + mark;
    let w2 = w1 + field.name;
    let w3 = w2 + ": "@;
    let w4 = w3 + field.value_type;
    let w5 = w4 + values;
    lemma_occurs_last(w1, field.name);
    lemma_occurs_on(w2, ": "@, field.name);
    lemma_occurs_on(w3, field.value_type, field.name);
    lemma_occurs_on(w4, values, field.name);
    lemma_occurs_last(w3, field.value_type);
    lemma_occurs_on(w4, values, field.value_type);
    lemma_occurs_last(w4, values);
    assert(line[4] == mark[0]);
    if field.enum_values is Some && 0 <= v < field.enum_values->0.len() {
        let all = field.enum_values->0;
        let listed = joined_text(all, "|"@);
        lemma_occurs_between(" ["@, listed, "]"@);
        lemma_parts_occur(all, "|"@, v);
        lemma_occurs_within(line, values, listed);
        lemma_occurs_within(line, listed, all[v]);
    }
}

/// A graph is taken where it validates, and refused otherwise with each of its
/// problems; what is no graph is refused with the reason.
pub proof fn written_graphs_are_checked(graph: GraphView, text: Seq<char>, i: int)
    ensures
        graph_errors(graph).len() == 0 <==> checked(Ok(graph)) is Ok,
        checked(Ok(graph)) is Ok ==> checked(Ok(graph))->Ok_0 == graph,
        0 <= i < graph_errors(graph).len() ==> {
            &&& checked(Ok(graph))->Err_0 is Invalid
            &&& occurs_in(
                checked(Ok(graph))->Err_0->Invalid_0,
                graph_errors(graph)[i].message(),
            )
        },
        checked(Err(text)) is Err && checked(Err(text))->Err_0 is Invalid && text.is_suffix_of(
            checked(Err(text))->Err_0->Invalid_0,
        ),
{
    if 0 <= i < graph_errors(graph).len() {
        lemma_parts_occur(problem_texts(graph_errors(graph)), "; "@, i);
        assert(problem_texts(graph_errors(graph))[i] == graph_errors(graph)[i].message());
    }
    let told = checked(Err(text))->Err_0->Invalid_0;
    assert(told.subrange(told.len() - text.len(), told.len() as int) =~= text);
}

/// A host refuses a graph for everything its facts rule out, or else for what its
/// policy says; and where neither speaks, it refuses nothing.
pub proof fn hosts_refuse_with_their_reasons(
    refused: Seq<Seq<char>>,
    policy: Option<Seq<char>>,
    i: int,
)
    ensures
        0 <= i < refused.len() ==> {
            &&& refusal(refused, policy) is Some
            &&& refusal(refused, policy)->0 is Unsupported
            &&& occurs_in(refusal(refused, policy)->0->Unsupported_0, refused[i])
        },
        refused.len() == 0 && policy is Some ==> refusal(refused, policy) == Some(
            IntakeErrorView::Unsupported(policy->0),
        ),
        refused.len() == 0 && policy is None ==> refusal(refused, policy) is None,
{
    if 0 <= i < refused.len() {
        lemma_parts_occur(refused, "; "@, i);
    }
}

/// A written graph is attempted as it is, with the inputs and the reason its
/// author gave.
pub proof fn written_graphs_are_attempted(
    answer: JsonView,
    graph: GraphView,
    why: Seq<char>,
    inputs: Seq<(Seq<char>, JsonView)>,
)
    requires
        answer.get("why"@) == Some(JsonView::String(why)),
        answer.get("inputs"@) == Some(JsonView::Object(inputs)),
    ensures
        authored(answer, graph).graph == graph,
        authored(answer, graph).inputs == inputs,
        authored(answer, graph).approach is Authored,
        authored(answer, graph).approach->Authored_why == why,
        authored(answer, graph).approach->fingerprint == mark_of(graph),
{
}

/// What a run of hexadecimal digits stands for.
pub open spec fn hex_number(digits: Seq<char>) -> nat
    decreases digits.len(),
{
    if digits.len() == 0 {
        0
    } else {
        let c = digits.last() as int;
        (hex_number(digits.drop_last()) * 16 + (if '0' <= digits.last() <= '9' {
            c - '0' as int
        } else {
            c - 'a' as int + 10
        })) as nat
    }
}

/// The digits shown of a number read back as it, where it has no more.
pub proof fn short_digests_read_back(n: nat, k: nat)
    ensures
        hex_tail(n, k).len() == k,
        hex_number(hex_tail(n, k)) == n % vstd::arithmetic::power::pow(16, k) as nat,
    decreases k,
{
    vstd::arithmetic::power::lemma_pow_positive(16, k);
    if k == 0 {
        vstd::arithmetic::power::lemma_pow0(16);
    } else {
        let m = (k - 1) as nat;
        short_digests_read_back(n / 16, m);
        let text = hex_tail(n, k);
        assert(text.drop_last() =~= hex_tail(n / 16, m));
        let d = n % 16;
        assert(text.last() == hex_digit(d));
        vstd::arithmetic::power::lemma_pow_positive(16, m);
        vstd::arithmetic::power::lemma_pow1(16);
        vstd::arithmetic::power::lemma_pow_adds(16, 1, m);
        let p = vstd::arithmetic::power::pow(16, m);
        assert(vstd::arithmetic::power::pow(16, k) == 16 * p);
        vstd::arithmetic::div_mod::lemma_mod_breakdown(n as int, 16, p);
    }
}

/// A reply that is the object itself is taken as it is; of any other the text is
/// read: the first choice's message, else the text, else the content.
pub proof fn replies_are_found_where_they_stand(
    answer: JsonView,
    entries: Seq<(Seq<char>, JsonView)>,
    text: Seq<char>,
    value: JsonView,
)
    requires
        parsed_json(trimmed(text)) == Some(value),
        value is Object,
    ensures
        answer == JsonView::Object(entries) && answer.get("choices"@) is None && answer.get(
            "text"@,
        ) is None ==> found_in(answer, answer),
        answer.get("choices"@) is None && answer.get("text"@) == Some(JsonView::String(text))
            ==> found_in(answer, value),
        answer.get("choices"@) is Some && answer.get("choices"@)->0 is Array && answer.get(
            "choices"@,
        )->0->Array_0.len() > 0 && answer.get("choices"@)->0->Array_0[0].get("message"@) is Some
            && answer.get("choices"@)->0->Array_0[0].get("message"@)->0.get("content"@) == Some(
            JsonView::String(text),
        ) ==> found_in(answer, value),
        answer.get("choices"@) == Some(JsonView::Array(Seq::empty())) && answer.get("text"@) is None
            && answer.get("content"@) == Some(JsonView::String(text)) ==> found_in(answer, value),
{
}

/// Clipping keeps the longest front part that fits: it fits, and with one
/// character more it would not.
pub proof fn clipping_keeps_all_that_fits(s: Seq<char>, bytes: nat)
    ensures
        clipped(s, bytes).is_prefix_of(s),
        text_bytes(clipped(s, bytes)) <= bytes,
        clipped(s, bytes).len() < s.len() ==> text_bytes(
            s.take(clipped(s, bytes).len() as int + 1),
        ) > bytes,
        text_bytes(s) <= bytes ==> clipped(s, bytes) == s,
    decreases s.len(),
{
    clipping_keeps_a_front_part(s, bytes);
    let kept = clipped(s, bytes);
    reveal_with_fuel(text_bytes, 2);
    if s.len() > 0 {
        let rest = s.drop_first();
        assert(s =~= seq![s[0]] + rest);
        lemma_bytes(seq![s[0]], rest);
        assert(seq![s[0]].drop_last() =~= Seq::empty());
        if char_bytes(s[0]) <= bytes {
            let left = (bytes - char_bytes(s[0])) as nat;
            clipping_keeps_all_that_fits(rest, left);
            let less = clipped(rest, left);
            lemma_bytes(seq![s[0]], less);
            if kept.len() < s.len() {
                assert(s.take(kept.len() as int + 1) =~= seq![s[0]] + rest.take(less.len() as int + 1));
                lemma_bytes(seq![s[0]], rest.take(less.len() as int + 1));
            }
        } else {
            assert(s.take(1) =~= seq![s[0]]);
        }
    } else {
        assert(kept =~= s);
    }
}

proof fn lemma_bytes(a: Seq<char>, b: Seq<char>)
    ensures
        text_bytes(a + b) == text_bytes(a) + text_bytes(b),
    decreases b.len(),
{
    if b.len() > 0 {
        lemma_bytes(a, b.drop_last());
        assert((a + b).drop_last() =~= a + b.drop_last());
    } else {
        assert(a + b =~= a);
    }
}

/// What is read of a reply is an object: the whole reply where it is one, the part
/// in braces where only that is, and else nothing.
pub proof fn replies_are_read_as_objects(
    whole: Option<JsonView>,
    part: Option<JsonView>,
    members: Seq<(Seq<char>, JsonView)>,
)
    ensures
        whole == Some(JsonView::Object(members)) ==> object_among(
            whole,
            part,
        ) == whole,
        (whole is None || !(whole->0 is Object)) && part == Some(JsonView::Object(members))
            ==> object_among(whole, part) == part,
        (whole is None || !(whole->0 is Object)) && (part is None || !(part->0 is Object))
            ==> object_among(whole, part) is None,
{
}

/// A kind with more than one way out, or one that is not the default, is listed with
/// the name of each; a kind that leaves by the default one is not.
pub proof fn ways_out_are_listed(contract: ContractView, i: int)
    ensures
        0 <= i < contract.ports.outputs.len() && contract.ports.outputs != seq!["main"@]
            ==> occurs_in(contract_text(contract), contract.ports.outputs[i]),
        contract.ports.outputs.len() == 0 || contract.ports.outputs == seq!["main"@]
            ==> contract_text(contract) == contract.kind + ": "@ + contract.summary + "\n"@
            + joined_text(field_lines(contract.config_fields), "\n"@),
{
    let outputs = contract.ports.outputs;
    let head = contract.kind + ": "@ + contract.summary + "\n"@;
    let fields = joined_text(field_lines(contract.config_fields), "\n"@);
    if 0 <= i < outputs.len() && outputs != seq!["main"@] {
        let listed = joined_text(outputs, ", "@);
        let line = port_line(outputs);
        lemma_parts_occur(outputs, ", "@, i);
        lemma_occurs_between("  out ports: "@, listed, "\n"@);
        lemma_occurs_within(line, listed, outputs[i]);
        lemma_occurs_last(head, line);
        lemma_occurs_on(head + line, fields, line);
        lemma_occurs_within(contract_text(contract), line, outputs[i]);
    } else if outputs.len() == 0 || outputs == seq!["main"@] {
        assert(head + port_line(outputs) =~= head);
    }
}

/// A reply is read as an object and as nothing else; where the whole of it is one,
/// it is read as that one.
pub proof fn whole_replies_come_first(text: Seq<char>, whole: JsonView, value: JsonView)
    ensures
        read_as(text, value) ==> value is Object,
        whole is Object && parsed_json(trimmed(text)) == Some(whole) ==> (
        read_as(text, value) <==> value == whole),
{
}

} // verus!
