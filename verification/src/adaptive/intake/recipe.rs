//! The simple authoring surface: a recipe of steps, lowered to a graph.
//!
//! A model does not write graphs. It writes steps that either `run` a script
//! or `ask` an agent, with `reads` naming which earlier steps' output an agent
//! needs, and [`lower`] turns that into a valid graph.
use vstd::prelude::*;

use crate::adaptive::intake::{IntakeError, IntakeErrorView};
use crate::json::{copy_members, lemma_object, members, Json, JsonView};
use crate::literals::{bound, is_expression};
use crate::model::graph::{
    addressable, is_valid_input_name, Edge, EdgeView, GraphView, InputType, Node, NodeKind,
    NodeView, WorkflowGraph, WorkflowInput, WorkflowInputView,
};
use crate::text::{
    chars_of, decimal, decimal_text, join, joined_text, lemma_views_push, same, split_words, text_of,
    trim, trimmed, views, words,
};

verus! {

/// What the planner of a recipe is told. It holds no graph syntax, because the
/// planner writes none.
pub const SYSTEM: &'static str = "\
You plan how to achieve a goal as a short sequence of steps.

Return JSON:
{\"why\": str,
 \"declared\": [{\"name\": str, \"description\": str, \"required\": bool}],
 \"inputs\": {name: value},
 \"steps\": [
   {\"id\": str, \"run\": str},
   {\"id\": str, \"ask\": str, \"reads\": [str], \"worker\": str?}
 ]}

- Steps execute in the order listed. Each step has an `id` (a short
  snake_case name) and exactly ONE of:
    run  a shell script. It must PRINT its result to stdout — a result in a
         file or nowhere is a result the next step cannot see. Print JSON
         when the output is structured.
    ask  an instruction for an AI agent. Say exactly what to produce and
         that it should be produced directly. The agent's reply text is the
         step's output.
- `reads` (ask steps only): the ids of EARLIER steps whose output this agent
  needs. Their output is attached to the instruction automatically — do not
  describe how to fetch it, and do not use placeholders for it.
- `worker` (ask steps only, optional): a worker this host lists, when the
  step must run somewhere specific. Omit it otherwise.
- `declared`: the workflow's inputs — anything the goal supplies as data (a
  repository, a topic, an id), so the plan works for the NEXT goal of its
  kind with different values. `inputs` supplies this run's value for every
  required one. Declared values are attached to ask steps automatically.
- The LAST step's output is the run's answer: make it the step that produces
  the deliverable.

Keep it short. One step is often right: an agent asked for the whole
deliverable, with the goal's data declared as inputs. Use `run` steps for
deterministic fetching or checking, not for judgement.

Where a section below states what this host permits, it is enforced when the
plan runs. Where a section lists what this episode already tried, produce a
DIFFERENT plan, not the same one reworded.";

broadcast use lemma_views_push;

/// What one step does.
pub enum Action {
    /// Runs a script.
    Run(String),
    /// Asks an agent, on a given worker where one is named.
    Ask { prompt: String, worker: Option<String> },
}

/// One step of a recipe.
pub struct Step {
    pub id: String,
    pub action: Action,
    /// The earlier steps whose output this one is given.
    pub reads: Vec<String>,
}

#[verifier::ext_equal]
pub enum ActionView {
    Run(Seq<char>),
    Ask { prompt: Seq<char>, worker: Option<Seq<char>> },
}

#[verifier::ext_equal]
pub struct StepView {
    pub id: Seq<char>,
    pub action: ActionView,
    pub reads: Seq<Seq<char>>,
}

impl View for Action {
    type V = ActionView;

    open spec fn view(&self) -> ActionView {
        match *self {
            Action::Run(script) => ActionView::Run(script@),
            Action::Ask { prompt, worker } => ActionView::Ask {
                prompt: prompt@,
                worker: match worker {
                    Some(name) => Some(name@),
                    None => None,
                },
            },
        }
    }
}

impl View for Step {
    type V = StepView;

    open spec fn view(&self) -> StepView {
        StepView { id: self.id@, action: self.action@, reads: views(self.reads@) }
    }
}

/// A value the recipe declares as an input.
pub struct Declared {
    pub name: String,
    pub description: String,
    pub required: bool,
}

#[verifier::ext_equal]
pub struct DeclaredView {
    pub name: Seq<char>,
    pub description: Seq<char>,
    pub required: bool,
}

impl View for Declared {
    type V = DeclaredView;

    open spec fn view(&self) -> DeclaredView {
        DeclaredView {
            name: self.name@,
            description: self.description@,
            required: self.required,
        }
    }
}

/// An ASCII letter in lower case, an ASCII digit, or an underscore for
/// anything else.
pub open spec fn safe_char(c: char) -> char {
    if 'a' <= c <= 'z' || '0' <= c <= '9' {
        c
    } else if 'A' <= c <= 'Z' {
        ((c as u8) + 32) as u8 as char
    } else {
        '_'
    }
}

pub open spec fn safe_chars(s: Seq<char>) -> Seq<char> {
    Seq::new(s.len(), |i: int| safe_char(s[i]))
}

/// A text without its leading underscores.
pub open spec fn strip_front(s: Seq<char>) -> Seq<char>
    decreases s.len(),
{
    if s.len() > 0 && s[0] == '_' {
        strip_front(s.drop_first())
    } else {
        s
    }
}

/// A text without its trailing underscores.
pub open spec fn strip_back(s: Seq<char>) -> Seq<char>
    decreases s.len(),
{
    if s.len() > 0 && s.last() == '_' {
        strip_back(s.drop_last())
    } else {
        s
    }
}

/// A name that the engine and jq both accept.
pub open spec fn sanitized(raw: Seq<char>) -> Seq<char> {
    strip_back(strip_front(safe_chars(raw)))
}

fn safe(c: char) -> (r: char)
    ensures
        r == safe_char(c),
{
    if ('a' <= c && c <= 'z') || ('0' <= c && c <= '9') {
        c
    } else if 'A' <= c && c <= 'Z' {
        ((c as u8) + 32) as char
    } else {
        '_'
    }
}

/// A name that the engine and jq both accept: lower-case letters, digits and
/// inner underscores.
pub fn sanitize_id(raw: &str) -> (id: String)
    ensures
        id@ == sanitized(raw@),
{
    let chars = chars_of(raw);
    let mut mapped: Vec<char> = Vec::new();
    let mut i: usize = 0;
    while i < chars.len()
        invariant
            i <= chars.len(),
            chars@ == raw@,
            mapped@.len() == i,
            forall|k: int| 0 <= k < i ==> mapped@[k] == safe_char(raw@[k]),
        decreases chars.len() - i,
    {
        mapped.push(safe(chars[i]));
        i = i + 1;
    }
    assert(mapped@ =~= safe_chars(raw@));
    let mut from: usize = 0;
    assert(mapped@.skip(0) =~= mapped@);
    while from < mapped.len() && mapped[from] == '_'
        invariant
            from <= mapped.len(),
            strip_front(safe_chars(raw@)) == strip_front(mapped@.skip(from as int)),
        decreases mapped.len() - from,
    {
        assert(mapped@.skip(from as int).drop_first() =~= mapped@.skip(from + 1));
        from = from + 1;
    }
    let mut to: usize = mapped.len();
    assert(mapped@.subrange(from as int, to as int) =~= mapped@.skip(from as int));
    while from < to && mapped[to - 1] == '_'
        invariant
            from <= to <= mapped.len(),
            sanitized(raw@) == strip_back(mapped@.subrange(from as int, to as int)),
        decreases to,
    {
        assert(mapped@.subrange(from as int, to as int).drop_last() =~= mapped@.subrange(
            from as int,
            to - 1,
        ));
        to = to - 1;
    }
    text_of(vstd::slice::slice_subrange(mapped.as_slice(), from, to))
}

/// How one character stands inside a jq string literal.
pub open spec fn jq_char(c: char) -> Seq<char> {
    if c == '"' {
        seq!['\\', '"']
    } else if c == '\\' {
        seq!['\\', '\\']
    } else if c == '\n' {
        seq!['\\', 'n']
    } else if c == '\r' {
        seq!['\\', 'r']
    } else if c == '\t' {
        seq!['\\', 't']
    } else {
        seq![c]
    }
}

pub open spec fn jq_chars(s: Seq<char>) -> Seq<char>
    decreases s.len(),
{
    if s.len() == 0 {
        Seq::empty()
    } else {
        jq_chars(s.drop_last()) + jq_char(s.last())
    }
}

/// A text as a jq string literal.
pub open spec fn jq_quoted(s: Seq<char>) -> Seq<char> {
    seq!['"'] + jq_chars(s) + seq!['"']
}

/// A text as a jq literal: quoted, with the characters jq treats specially
/// escaped, so that the program stays one line.
pub fn jq_quote(text: &str) -> (r: String)
    ensures
        r@ == jq_quoted(text@),
{
    let chars = chars_of(text);
    let mut quoted = String::new();
    quoted.push('"');
    let mut i: usize = 0;
    assert(quoted@ =~= seq!['"'] + jq_chars(text@.take(0)));
    while i < chars.len()
        invariant
            i <= chars.len(),
            chars@ == text@,
            quoted@ == seq!['"'] + jq_chars(text@.take(i as int)),
        decreases chars.len() - i,
    {
        let c = chars[i];
        let ghost before = quoted@;
        if c == '"' {
            quoted.push('\\');
            quoted.push('"');
        } else if c == '\\' {
            quoted.push('\\');
            quoted.push('\\');
        } else if c == '\n' {
            quoted.push('\\');
            quoted.push('n');
        } else if c == '\r' {
            quoted.push('\\');
            quoted.push('r');
        } else if c == '\t' {
            quoted.push('\\');
            quoted.push('t');
        } else {
            quoted.push(c);
        }
        proof {
            assert(quoted@ =~= before + jq_char(c));
            assert(text@.take(i + 1).drop_last() =~= text@.take(i as int));
            assert(quoted@ =~= seq!['"'] + jq_chars(text@.take(i + 1)));
        }
        i = i + 1;
    }
    quoted.push('"');
    assert(text@.take(text@.len() as int) =~= text@);
    assert(quoted@ =~= jq_quoted(text@));
    quoted
}

/// Some step has this id.
pub open spec fn has_step(steps: Seq<StepView>, id: Seq<char>) -> bool {
    exists|i: int| 0 <= i < steps.len() && (#[trigger] steps[i]).id == id
}

fn find_step(steps: &Vec<Step>, id: &str) -> (r: Option<usize>)
    ensures
        match r {
            Some(i) => i < steps.len() && is_first_step(views(steps@), id@, i as int),
            None => !has_step(views(steps@), id@),
        },
{
    let mut i: usize = 0;
    while i < steps.len()
        invariant
            i <= steps.len(),
            forall|k: int| 0 <= k < i ==> (#[trigger] views(steps@)[k]).id != id@,
        decreases steps.len() - i,
    {
        assert(views(steps@)[i as int] == steps@[i as int]@);
        if same(steps[i].id.as_str(), id) {
            return Some(i);
        }
        i = i + 1;
    }
    None
}

/// `i` is the position of the first step with this id.
pub open spec fn is_first_step(steps: Seq<StepView>, id: Seq<char>, i: int) -> bool {
    &&& 0 <= i < steps.len()
    &&& steps[i].id == id
    &&& forall|k: int| 0 <= k < i ==> (#[trigger] steps[k]).id != id
}

/// The steps read so far, and what was wrong with the rest.
#[verifier::ext_equal]
pub struct Reading {
    pub steps: Seq<StepView>,
    pub problems: Seq<Seq<char>>,
}

impl Reading {
    pub open spec fn with_problem(self, problem: Seq<char>) -> Reading {
        Reading { problems: self.problems.push(problem), ..self }
    }
}

/// The text under `key` without surrounding white space, where any is left.
pub open spec fn filled(step: JsonView, key: Seq<char>) -> Option<Seq<char>> {
    match step.text_at(key) {
        Some(text) => if trimmed(text).len() > 0 {
            Some(trimmed(text))
        } else {
            None
        },
        None => None,
    }
}

fn filled_text(step: &Json, key: &str) -> (r: Option<String>)
    ensures
        match r {
            Some(text) => filled(step@, key@) == Some(text@),
            None => filled(step@, key@) is None,
        },
{
    match step.text_at(key) {
        Some(text) => {
            let inner = trim(text);
            if inner.as_str().is_empty() {
                None
            } else {
                Some(inner)
            }
        },
        None => None,
    }
}

/// The id a `reads` entry names.
pub open spec fn read_name(entry: JsonView) -> Seq<char> {
    match entry.as_str() {
        Some(text) => sanitized(text),
        None => sanitized(Seq::empty()),
    }
}

pub open spec fn forward_read(id: Seq<char>, read: Seq<char>) -> Seq<char> {
    "step `"@ + id + "` reads `"@ + read + "`, which is not an EARLIER step id"@
}

/// The first `n` entries of `reads` that name an earlier step.
pub open spec fn good_reads(steps: Seq<StepView>, raw: Seq<JsonView>, n: nat) -> Seq<Seq<char>>
    decreases n,
{
    if n == 0 {
        Seq::empty()
    } else {
        let rest = good_reads(steps, raw, (n - 1) as nat);
        if has_step(steps, read_name(raw[n - 1])) {
            rest.push(read_name(raw[n - 1]))
        } else {
            rest
        }
    }
}

/// What is wrong with the first `n` entries of `reads`.
pub open spec fn bad_reads(
    steps: Seq<StepView>,
    id: Seq<char>,
    raw: Seq<JsonView>,
    n: nat,
) -> Seq<Seq<char>>
    decreases n,
{
    if n == 0 {
        Seq::empty()
    } else {
        let rest = bad_reads(steps, id, raw, (n - 1) as nat);
        if has_step(steps, read_name(raw[n - 1])) {
            rest
        } else {
            rest.push(forward_read(id, read_name(raw[n - 1])))
        }
    }
}

pub open spec fn raw_reads(step: JsonView) -> Seq<JsonView> {
    match step.at("reads"@).as_array() {
        Some(items) => items,
        None => Seq::empty(),
    }
}

/// The step is accepted: its reads are kept, and complained of where they
/// cannot work.
pub open spec fn accepted(
    reading: Reading,
    id: Seq<char>,
    action: ActionView,
    raw: Seq<JsonView>,
) -> Reading {
    let reads = good_reads(reading.steps, raw, raw.len());
    let complaints = bad_reads(reading.steps, id, raw, raw.len());
    let unread = if action is Run && reads.len() > 0 {
        seq!["step `"@ + id + "`: `reads` only works on ask steps — a run script sees nothing"@]
    } else {
        Seq::empty()
    };
    Reading {
        steps: reading.steps.push(StepView { id, action, reads }),
        problems: reading.problems + complaints + unread,
    }
}

/// What step `index` adds to what has been read.
pub open spec fn read_step(reading: Reading, index: nat, step: JsonView) -> Reading {
    let id = sanitized(step.text_or_empty("id"@));
    if id.len() == 0 {
        reading.with_problem("step "@ + decimal(index) + " has no usable `id`"@)
    } else if id == "start"@ || has_step(reading.steps, id) {
        reading.with_problem("step id `"@ + id + "` is taken — ids must be unique"@)
    } else {
        match (filled(step, "run"@), filled(step, "ask"@)) {
            (Some(script), None) => accepted(
                reading,
                id,
                ActionView::Run(script),
                raw_reads(step),
            ),
            (None, Some(prompt)) => match filled(step, "worker"@) {
                Some(worker) if is_expression(worker) => reading.with_problem(
                    "step `"@ + id + "`: `worker` names a worker — it cannot be an expression"@,
                ),
                worker => accepted(
                    reading,
                    id,
                    ActionView::Ask { prompt, worker },
                    raw_reads(step),
                ),
            },
            (Some(_), Some(_)) => reading.with_problem(
                "step `"@ + id + "` has both `run` and `ask` — split it into two steps"@,
            ),
            (None, None) => reading.with_problem(
                "step `"@ + id + "` has neither a `run` script nor an `ask` instruction"@,
            ),
        }
    }
}

/// What the first `n` steps of a recipe read as.
pub open spec fn read_steps(raw: Seq<JsonView>, n: nat) -> Reading
    decreases n,
{
    if n == 0 {
        Reading { steps: Seq::empty(), problems: Seq::empty() }
    } else {
        read_step(read_steps(raw, (n - 1) as nat), (n - 1) as nat, raw[n - 1])
    }
}

pub open spec fn no_steps_message() -> Seq<char> {
    "the reply has no `steps` — return at least one step with an `id` and a `run` script or an `ask` instruction"@
}

/// The steps of a recipe, or every problem with them at once.
pub open spec fn parsed_steps(answer: JsonView) -> Result<Seq<StepView>, IntakeErrorView> {
    match answer.at("steps"@).as_array() {
        Some(raw) => if raw.len() == 0 {
            Err(IntakeErrorView::Invalid(no_steps_message()))
        } else {
            let reading = read_steps(raw, raw.len());
            if reading.problems.len() > 0 {
                Err(IntakeErrorView::Invalid(joined_text(reading.problems, "; "@)))
            } else {
                Ok(reading.steps)
            }
        },
        None => Err(IntakeErrorView::Invalid(no_steps_message())),
    }
}

fn about_step(id: &str, rest: &str) -> (r: String)
    ensures
        r@ == "step `"@ + id@ + rest@,
{
    let mut text = "step `".to_owned();
    text.append(id);
    text.append(rest);
    text
}

fn parse_reads(
    steps: &Vec<Step>,
    id: &str,
    step: &Json,
    problems: &mut Vec<String>,
) -> (reads: Vec<String>)
    ensures
        views(reads@) == good_reads(
            views(steps@),
            raw_reads(step@),
            raw_reads(step@).len(),
        ),
        views(final(problems)@) == views(old(problems)@) + bad_reads(
            views(steps@),
            id@,
            raw_reads(step@),
            raw_reads(step@).len(),
        ),
{
    let mut reads: Vec<String> = Vec::new();
    let ghost known = views(steps@);
    let ghost raw = raw_reads(step@);
    let items = match step.get("reads") {
        Some(value) => value.as_array(),
        None => None,
    };
    match items {
        None => {
            assert(raw.len() == 0);
            assert(views(reads@) =~= good_reads(known, raw, 0));
            assert(views(problems@) =~= views(old(problems)@) + bad_reads(known, id@, raw, 0));
        },
        Some(items) => {
            assert(raw == views(items@));
            let mut i: usize = 0;
            assert(views(reads@) =~= good_reads(known, raw, 0));
            assert(views(problems@) =~= views(old(problems)@) + bad_reads(known, id@, raw, 0));
            while i < items.len()
                invariant
                    i <= items.len(),
                    raw == views(items@),
                    known == views(steps@),
                    views(reads@) == good_reads(known, raw, i as nat),
                    views(problems@) == views(old(problems)@) + bad_reads(
                        known,
                        id@,
                        raw,
                        i as nat,
                    ),
                decreases items.len() - i,
            {
                let ghost before = views(problems@);
                assert(raw[i as int] == items@[i as int]@);
                let read = match items[i].as_str() {
                    Some(text) => sanitize_id(text),
                    None => {
                        let empty = String::new();
                        sanitize_id(empty.as_str())
                    },
                };
                assert(read@ == read_name(raw[i as int]));
                let found = find_step(steps, read.as_str());
                proof {
                    if let Some(k) = found {
                        assert(known[k as int].id == read@);
                    }
                }
                if found.is_some() {
                    reads.push(read);
                } else {
                    let mut problem = about_step(id, "` reads `");
                    problem.append(read.as_str());
                    problem.append("`, which is not an EARLIER step id");
                    problems.push(problem);
                }
                assert(views(problems@) =~= views(old(problems)@) + bad_reads(
                    known,
                    id@,
                    raw,
                    (i + 1) as nat,
                ));
                i = i + 1;
            }
        },
    }
    reads
}

fn accept_step(
    id: String,
    action: Action,
    step: &Json,
    steps: &mut Vec<Step>,
    problems: &mut Vec<String>,
)
    ensures
        ({
            let r = accepted(
                Reading { steps: views(old(steps)@), problems: views(old(problems)@) },
                id@,
                action@,
                raw_reads(step@),
            );
            &&& views(final(steps)@) == r.steps
            &&& views(final(problems)@) == r.problems
        }),
{
    let ghost known = views(steps@);
    let ghost raw = raw_reads(step@);
    let ghost r = accepted(
        Reading { steps: known, problems: views(problems@) },
        id@,
        action@,
        raw,
    );
    let reads = parse_reads(steps, id.as_str(), step, problems);
    let scripted = match &action {
        Action::Run(_) => true,
        Action::Ask { .. } => false,
    };
    let ghost complaints = views(problems@);
    if scripted && reads.len() > 0 {
        problems.push(
            about_step(
                id.as_str(),
                "`: `reads` only works on ask steps — a run script sees nothing",
            ),
        );
    }
    assert(views(reads@).len() == reads@.len());
    assert(views(problems@) =~= r.problems);
    steps.push(Step { id, action, reads });
    assert(views(steps@) =~= r.steps);
}

fn parse_step(index: usize, step: &Json, steps: &mut Vec<Step>, problems: &mut Vec<String>)
    ensures
        ({
            let r = read_step(
                Reading { steps: views(old(steps)@), problems: views(old(problems)@) },
                index as nat,
                step@,
            );
            &&& views(final(steps)@) == r.steps
            &&& views(final(problems)@) == r.problems
        }),
{
    let raw_id = step.text_or_empty("id");
    let id = sanitize_id(raw_id.as_str());
    let ghost known = views(steps@);
    if id.as_str().is_empty() {
        let mut problem = "step ".to_owned();
        problem.append(decimal_text(index as u64).as_str());
        problem.append(" has no usable `id`");
        problems.push(problem);
        return;
    }
    let found = find_step(steps, id.as_str());
    proof {
        if let Some(k) = found {
            assert(known[k as int].id == id@);
        }
    }
    if same(id.as_str(), "start") || found.is_some() {
        let mut problem = "step id `".to_owned();
        problem.append(id.as_str());
        problem.append("` is taken — ids must be unique");
        problems.push(problem);
        return;
    }
    let run = filled_text(step, "run");
    let ask = filled_text(step, "ask");
    match (run, ask) {
        (Some(script), None) => {
            accept_step(id, Action::Run(script), step, steps, problems);
        },
        (None, Some(prompt)) => {
            let worker = filled_text(step, "worker");
            let computed = match &worker {
                Some(name) => bound(name.as_str()),
                None => false,
            };
            if computed {
                problems.push(
                    about_step(
                        id.as_str(),
                        "`: `worker` names a worker — it cannot be an expression",
                    ),
                );
                return;
            }
            accept_step(id, Action::Ask { prompt, worker }, step, steps, problems);
        },
        (Some(_), Some(_)) => {
            problems.push(
                about_step(id.as_str(), "` has both `run` and `ask` — split it into two steps"),
            );
        },
        (None, None) => {
            problems.push(
                about_step(
                    id.as_str(),
                    "` has neither a `run` script nor an `ask` instruction",
                ),
            );
        },
    }
}

/// Reads the steps of a recipe.
pub fn parse_steps(answer: &Json) -> (r: Result<Vec<Step>, IntakeError>)
    ensures
        match r {
            Ok(steps) => parsed_steps(answer@) == Ok::<Seq<StepView>, IntakeErrorView>(
                views(steps@),
            ),
            Err(error) => parsed_steps(answer@) == Err::<Seq<StepView>, IntakeErrorView>(error@),
        },
{
    let items = match answer.get("steps") {
        Some(value) => value.as_array(),
        None => None,
    };
    let none = "the reply has no `steps` — return at least one step with an `id` and a `run` script or an `ask` instruction".to_owned();
    match items {
        None => Err(IntakeError::Invalid(none)),
        Some(items) => {
            let ghost raw = views(items@);
            if items.len() == 0 {
                return Err(IntakeError::Invalid(none));
            }
            let mut steps: Vec<Step> = Vec::new();
            let mut problems: Vec<String> = Vec::new();
            let mut i: usize = 0;
            assert(views(steps@) =~= read_steps(raw, 0).steps);
            assert(views(problems@) =~= read_steps(raw, 0).problems);
            while i < items.len()
                invariant
                    i <= items.len(),
                    raw == views(items@),
                    views(steps@) == read_steps(raw, i as nat).steps,
                    views(problems@) == read_steps(raw, i as nat).problems,
                decreases items.len() - i,
            {
                assert(raw[i as int] == items@[i as int]@);
                parse_step(i, &items[i], &mut steps, &mut problems);
                i = i + 1;
            }
            assert(views(problems@).len() == problems@.len());
            if problems.len() > 0 {
                Err(IntakeError::Invalid(join(&problems, "; ")))
            } else {
                Ok(steps)
            }
        },
    }
}

/// Some input is declared under the name.
pub open spec fn is_declared(declared: Seq<DeclaredView>, name: Seq<char>) -> bool {
    exists|i: int| 0 <= i < declared.len() && (#[trigger] declared[i]).name == name
}

/// The inputs among the first `n` declarations whose name can be addressed and
/// was not declared before.
pub open spec fn declared_inputs(raw: Seq<JsonView>, n: nat) -> Seq<DeclaredView>
    decreases n,
{
    if n == 0 {
        Seq::empty()
    } else {
        let rest = declared_inputs(raw, (n - 1) as nat);
        let input = raw[n - 1];
        let name = sanitized(input.text_or_empty("name"@));
        if !addressable(name) || is_declared(rest, name) {
            rest
        } else {
            rest.push(
                DeclaredView {
                    name,
                    description: input.text_or_empty("description"@),
                    required: input.at("required"@).as_bool() == Some(true),
                },
            )
        }
    }
}

/// What a recipe declares as inputs.
pub open spec fn declared_of(answer: JsonView) -> Seq<DeclaredView> {
    match answer.at("declared"@).as_array() {
        Some(raw) => declared_inputs(raw, raw.len()),
        None => Seq::empty(),
    }
}

fn already_declared(declared: &Vec<Declared>, name: &str) -> (r: bool)
    ensures
        r == is_declared(views(declared@), name@),
{
    let mut i: usize = 0;
    while i < declared.len()
        invariant
            i <= declared@.len(),
            forall|k: int| 0 <= k < i ==> (#[trigger] views(declared@)[k]).name != name@,
        decreases declared@.len() - i,
    {
        assert(views(declared@)[i as int] == declared@[i as int]@);
        if same(declared[i].name.as_str(), name) {
            return true;
        }
        i = i + 1;
    }
    false
}

/// Reads what a recipe declares as inputs. A declaration whose name cannot be
/// addressed, or was declared before, is left out.
pub fn parse_declared(answer: &Json) -> (r: Vec<Declared>)
    ensures
        views(r@) == declared_of(answer@),
{
    let mut declared: Vec<Declared> = Vec::new();
    let items = match answer.get("declared") {
        Some(value) => value.as_array(),
        None => None,
    };
    match items {
        None => {
            assert(views(declared@) =~= declared_of(answer@));
        },
        Some(items) => {
            let ghost raw = views(items@);
            let mut i: usize = 0;
            assert(views(declared@) =~= declared_inputs(raw, 0));
            while i < items.len()
                invariant
                    i <= items.len(),
                    raw == views(items@),
                    views(declared@) == declared_inputs(raw, i as nat),
                decreases items.len() - i,
            {
                let input = &items[i];
                assert(raw[i as int] == input@);
                let raw_name = input.text_or_empty("name");
                let name = sanitize_id(raw_name.as_str());
                if is_valid_input_name(name.as_str()) && !already_declared(
                    &declared,
                    name.as_str(),
                ) {
                    let required = match input.get("required") {
                        Some(value) => match value.as_bool() {
                            Some(b) => b,
                            None => false,
                        },
                        None => false,
                    };
                    declared.push(
                        Declared {
                            name,
                            description: input.text_or_empty("description"),
                            required,
                        },
                    );
                }
                i = i + 1;
            }
        },
    }
    declared
}

pub open spec fn input_part(name: Seq<char>) -> Seq<char> {
    " + "@ + jq_quoted("\n\n# Input `"@ + name + "`\n"@) + " + ((.run.inputs."@ + name
        + " // \"(not provided)\") | tostring)"@
}

/// The parts of a prompt that attach the first `n` declared inputs.
pub open spec fn input_parts(declared: Seq<DeclaredView>, n: nat) -> Seq<char>
    decreases n,
{
    if n == 0 {
        Seq::empty()
    } else {
        input_parts(declared, (n - 1) as nat) + input_part(declared[n - 1].name)
    }
}

/// Where a step leaves its output: a script's under `stdout`, an agent's under
/// `text`.
pub open spec fn output_field(steps: Seq<StepView>, read: Seq<char>) -> Seq<char> {
    if exists|i: int| #[trigger] is_first_step(steps, read, i) && steps[i].action is Run {
        ".item.json.stdout // \"(no output)\")"@
    } else {
        ".item.json.text // \"(no output)\")"@
    }
}

pub open spec fn read_part(steps: Seq<StepView>, read: Seq<char>) -> Seq<char> {
    " + "@ + jq_quoted("\n\n# Output of step `"@ + read + "`\n"@) + " + ("@ + "(.nodes."@ + read
        + output_field(steps, read) + " | tostring)"@
}

/// The parts of a prompt that attach the first `n` reads.
pub open spec fn read_parts(steps: Seq<StepView>, reads: Seq<Seq<char>>, n: nat) -> Seq<char>
    decreases n,
{
    if n == 0 {
        Seq::empty()
    } else {
        read_parts(steps, reads, (n - 1) as nat) + read_part(steps, reads[n - 1])
    }
}

/// The prompt expression of an ask step: the instruction, then every declared
/// input, then the output of each step it reads.
pub open spec fn prompt_program(
    prompt: Seq<char>,
    reads: Seq<Seq<char>>,
    steps: Seq<StepView>,
    declared: Seq<DeclaredView>,
) -> Seq<char> {
    "="@ + jq_quoted(prompt) + input_parts(declared, declared.len()) + read_parts(
        steps,
        reads,
        reads.len(),
    )
}

fn quoted_heading(before: &str, name: &str, after: &str) -> (r: String)
    ensures
        r@ == jq_quoted(before@ + name@ + after@),
{
    let mut heading = before.to_owned();
    heading.append(name);
    heading.append(after);
    jq_quote(heading.as_str())
}

/// The prompt expression of an ask step, as a jq program: missing values
/// render as an explicit marker.
pub fn ask_expression(
    prompt: &str,
    reads: &Vec<String>,
    steps: &Vec<Step>,
    declared: &Vec<Declared>,
) -> (program: String)
    ensures
        program@ == prompt_program(prompt@, views(reads@), views(steps@), views(declared@)),
{
    let ghost inputs = views(declared@);
    let ghost known = views(steps@);
    let ghost names = views(reads@);
    let mut program = "=".to_owned();
    program.append(jq_quote(prompt).as_str());
    let ghost head = program@;
    let mut i: usize = 0;
    assert(program@ =~= head + input_parts(inputs, 0));
    while i < declared.len()
        invariant
            i <= declared.len(),
            inputs == views(declared@),
            program@ == head + input_parts(inputs, i as nat),
        decreases declared.len() - i,
    {
        let ghost before = program@;
        let name = declared[i].name.as_str();
        assert(inputs[i as int].name == name@);
        program.append(" + ");
        program.append(quoted_heading("\n\n# Input `", name, "`\n").as_str());
        program.append(" + ((.run.inputs.");
        program.append(name);
        program.append(" // \"(not provided)\") | tostring)");
        assert(program@ =~= before + input_part(name@));
        assert(program@ =~= head + input_parts(inputs, (i + 1) as nat));
        i = i + 1;
    }
    let ghost middle = program@;
    let mut j: usize = 0;
    assert(program@ =~= middle + read_parts(known, names, 0));
    while j < reads.len()
        invariant
            j <= reads.len(),
            known == views(steps@),
            names == views(reads@),
            program@ == middle + read_parts(known, names, j as nat),
        decreases reads.len() - j,
    {
        let ghost before = program@;
        let read = reads[j].as_str();
        assert(names[j as int] == read@);
        program.append(" + ");
        program.append(quoted_heading("\n\n# Output of step `", read, "`\n").as_str());
        program.append(" + (");
        program.append("(.nodes.");
        program.append(read);
        let scripted = match find_step(steps, read) {
            Some(k) => {
                assert(known[k as int] == steps@[k as int]@);
                assert(is_first_step(known, read@, k as int));
                match &steps[k].action {
                    Action::Run(_) => true,
                    Action::Ask { .. } => false,
                }
            },
            None => false,
        };
        proof {
            if exists|k: int| #[trigger] is_first_step(known, read@, k) && known[k].action is Run {
                let k = choose|k: int| #[trigger]
                    is_first_step(known, read@, k) && known[k].action is Run;
                assert(known[k].id == read@);
                assert(scripted);
            }
        }
        if scripted {
            program.append(".item.json.stdout // \"(no output)\")");
        } else {
            program.append(".item.json.text // \"(no output)\")");
        }
        program.append(" | tostring)");
        assert(program@ =~= before + read_part(known, read@));
        assert(program@ =~= middle + read_parts(known, names, (j + 1) as nat));
        j = j + 1;
    }
    assert(program@ =~= prompt_program(prompt@, names, known, inputs));
    program
}

pub open spec fn step_ids(steps: Seq<StepView>) -> Seq<Seq<char>> {
    Seq::new(steps.len(), |i: int| steps[i].id)
}

/// The first `ask` among the steps from `from` on.
pub open spec fn first_ask(steps: Seq<StepView>, from: int) -> Option<Seq<char>>
    decreases steps.len() - from,
{
    if from < 0 || from >= steps.len() {
        None
    } else {
        match steps[from].action {
            ActionView::Ask { prompt, .. } => Some(prompt),
            ActionView::Run(_) => first_ask(steps, from + 1),
        }
    }
}

/// The first six words of a text, or all of them where there are fewer.
pub open spec fn opening_words(text: Seq<char>) -> Seq<char> {
    let all = words(text);
    joined_text(
        if all.len() > 6 {
            all.take(6)
        } else {
            all
        },
        " "@,
    )
}

/// The name of a lowered graph: the opening words of its first ask step, or
/// else its step ids.
pub open spec fn name_of(steps: Seq<StepView>) -> Seq<char> {
    match first_ask(steps, 0) {
        Some(prompt) => if opening_words(prompt).len() > 0 {
            opening_words(prompt)
        } else {
            joined_text(step_ids(steps), " → "@)
        },
        None => joined_text(step_ids(steps), " → "@),
    }
}

fn find_ask(steps: &Vec<Step>) -> (r: Option<&str>)
    ensures
        match r {
            Some(prompt) => first_ask(views(steps@), 0) == Some(prompt@),
            None => first_ask(views(steps@), 0) is None,
        },
{
    let ghost known = views(steps@);
    let mut i: usize = 0;
    while i < steps.len()
        invariant
            i <= steps.len(),
            known == views(steps@),
            first_ask(known, 0) == first_ask(known, i as int),
        decreases steps.len() - i,
    {
        assert(known[i as int] == steps@[i as int]@);
        match &steps[i].action {
            Action::Ask { prompt, .. } => {
                return Some(prompt.as_str());
            },
            Action::Run(_) => {},
        }
        i = i + 1;
    }
    None
}

fn opening(text: &str) -> (r: String)
    ensures
        r@ == opening_words(text@),
{
    let mut first = split_words(text);
    assert(views(first@).len() == first@.len());
    if first.len() > 6 {
        let ghost all = views(first@);
        first.truncate(6);
        assert(views(first@) =~= all.take(6));
    }
    join(&first, " ")
}

/// A graph name that a listing can show.
pub fn graph_name(steps: &Vec<Step>) -> (r: String)
    ensures
        r@ == name_of(views(steps@)),
{
    match find_ask(steps) {
        Some(prompt) => {
            let head = opening(prompt);
            if !head.as_str().is_empty() {
                return head;
            }
        },
        None => {},
    }
    let mut ids: Vec<String> = Vec::new();
    let ghost known = views(steps@);
    let mut i: usize = 0;
    while i < steps.len()
        invariant
            i <= steps.len(),
            known == views(steps@),
            ids@.len() == i,
            forall|k: int| 0 <= k < i ==> (#[trigger] ids@[k])@ == known[k].id,
        decreases steps.len() - i,
    {
        assert(known[i as int] == steps@[i as int]@);
        ids.push(steps[i].id.clone());
        i = i + 1;
    }
    assert(views(ids@) =~= step_ids(known));
    join(&ids, " → ")
}

pub open spec fn text_entry(key: Seq<char>, value: Seq<char>) -> (Seq<char>, JsonView) {
    (key, JsonView::String(value))
}

pub open spec fn start_node() -> NodeView {
    NodeView {
        id: "start"@,
        kind: NodeKind::Trigger,
        type_version: 1,
        name: "start"@,
        config: JsonView::Object(seq![text_entry("trigger_kind"@, "manual"@)]),
        position: None,
    }
}

/// The node of one step.
pub open spec fn step_node(
    step: StepView,
    steps: Seq<StepView>,
    declared: Seq<DeclaredView>,
) -> NodeView {
    match step.action {
        ActionView::Run(script) => NodeView {
            id: step.id,
            kind: NodeKind::Shell,
            type_version: 1,
            name: step.id,
            config: JsonView::Object(seq![text_entry("script"@, script)]),
            position: None,
        },
        ActionView::Ask { prompt, worker } => {
            let program = text_entry(
                "prompt"@,
                prompt_program(prompt, step.reads, steps, declared),
            );
            NodeView {
                id: step.id,
                kind: NodeKind::Agent,
                type_version: 1,
                name: step.id,
                config: match worker {
                    Some(name) => JsonView::Object(seq![program, text_entry("agent_ref"@, name)]),
                    None => JsonView::Object(seq![program]),
                },
                position: None,
            }
        },
    }
}

/// The edge into step `i`: from the step before it, or from the start.
pub open spec fn step_edge(steps: Seq<StepView>, i: int) -> EdgeView {
    EdgeView {
        from_node: if i == 0 {
            "start"@
        } else {
            steps[i - 1].id
        },
        from_port: "main"@,
        to_node: steps[i].id,
        to_port: "main"@,
    }
}

pub open spec fn input_of(declared: DeclaredView) -> WorkflowInputView {
    WorkflowInputView {
        name: declared.name,
        ty: InputType::String,
        required: declared.required,
        default: None,
        description: Some(declared.description),
    }
}

/// The graph of a recipe: a manual trigger and then the steps, one after
/// another.
pub open spec fn lowered_graph(
    steps: Seq<StepView>,
    declared: Seq<DeclaredView>,
) -> GraphView {
    GraphView {
        schema_version: 1,
        id: None,
        name: name_of(steps),
        inputs: Seq::new(declared.len(), |i: int| input_of(declared[i])),
        agents: Seq::empty(),
        nodes: seq![start_node()] + Seq::new(
            steps.len(),
            |i: int| step_node(steps[i], steps, declared),
        ),
        edges: Seq::new(steps.len(), |i: int| step_edge(steps, i)),
    }
}

pub open spec fn inputs_of(answer: JsonView) -> Seq<(Seq<char>, JsonView)> {
    match answer.at("inputs"@).as_object() {
        Some(entries) => entries,
        None => Seq::empty(),
    }
}

/// What a recipe lowers to: the graph, the run's input values, and the reason.
pub open spec fn lowered(answer: JsonView) -> Result<
    (GraphView, Seq<(Seq<char>, JsonView)>, Seq<char>),
    IntakeErrorView,
> {
    match parsed_steps(answer) {
        Ok(steps) => Ok(
            (
                lowered_graph(steps, declared_of(answer)),
                inputs_of(answer),
                answer.text_or_empty("why"@),
            ),
        ),
        Err(error) => Err(error),
    }
}

fn text_member(key: &str, value: String) -> (r: (String, Json))
    ensures
        (r.0@, r.1@) == text_entry(key@, value@),
{
    (key.to_owned(), Json::String(value))
}

fn node_of(step: &Step, steps: &Vec<Step>, declared: &Vec<Declared>) -> (r: Node)
    ensures
        r@ == step_node(step@, views(steps@), views(declared@)),
{
    match &step.action {
        Action::Run(script) => {
            let mut entries: Vec<(String, Json)> = Vec::new();
            entries.push(text_member("script", script.clone()));
            proof {
                assert(members(entries@) =~= seq![text_entry("script"@, script@)]);
                lemma_object(entries);
            }
            Node {
                id: step.id.clone(),
                kind: NodeKind::Shell,
                type_version: 1,
                name: step.id.clone(),
                config: Json::Object(entries),
                position: None,
            }
        },
        Action::Ask { prompt, worker } => {
            let program = ask_expression(prompt.as_str(), &step.reads, steps, declared);
            let ghost first = text_entry("prompt"@, program@);
            let mut entries: Vec<(String, Json)> = Vec::new();
            entries.push(text_member("prompt", program));
            match worker {
                Some(name) => {
                    entries.push(text_member("agent_ref", name.clone()));
                    assert(members(entries@) =~= seq![first, text_entry("agent_ref"@, name@)]);
                },
                None => {
                    assert(members(entries@) =~= seq![first]);
                },
            }
            proof {
                lemma_object(entries);
            }
            Node {
                id: step.id.clone(),
                kind: NodeKind::Agent,
                type_version: 1,
                name: step.id.clone(),
                config: Json::Object(entries),
                position: None,
            }
        },
    }
}

fn trigger_node() -> (r: Node)
    ensures
        r@ == start_node(),
{
    let mut entries: Vec<(String, Json)> = Vec::new();
    entries.push(text_member("trigger_kind", "manual".to_owned()));
    proof {
        assert(members(entries@) =~= seq![text_entry("trigger_kind"@, "manual"@)]);
        lemma_object(entries);
    }
    Node {
        id: "start".to_owned(),
        kind: NodeKind::Trigger,
        type_version: 1,
        name: "start".to_owned(),
        config: Json::Object(entries),
        position: None,
    }
}

fn build_graph(steps: &Vec<Step>, declared: &Vec<Declared>) -> (r: WorkflowGraph)
    ensures
        r@ == lowered_graph(views(steps@), views(declared@)),
{
    let ghost known = views(steps@);
    let ghost wanted = views(declared@);
    let ghost g = lowered_graph(known, wanted);
    let mut nodes: Vec<Node> = Vec::new();
    nodes.push(trigger_node());
    let mut edges: Vec<Edge> = Vec::new();
    let mut i: usize = 0;
    while i < steps.len()
        invariant
            i <= steps.len(),
            known == views(steps@),
            wanted == views(declared@),
            g == lowered_graph(known, wanted),
            nodes@.len() == i + 1,
            nodes@[0]@ == start_node(),
            forall|k: int| 1 <= k <= i ==> (#[trigger] nodes@[k])@ == g.nodes[k],
            edges@.len() == i,
            forall|k: int| 0 <= k < i ==> (#[trigger] edges@[k])@ == g.edges[k],
        decreases steps.len() - i,
    {
        assert(known[i as int] == steps@[i as int]@);
        nodes.push(node_of(&steps[i], steps, declared));
        let previous = if i == 0 {
            "start".to_owned()
        } else {
            assert(known[i - 1] == steps@[i - 1]@);
            steps[i - 1].id.clone()
        };
        edges.push(
            Edge {
                from_node: previous,
                from_port: "main".to_owned(),
                to_node: steps[i].id.clone(),
                to_port: "main".to_owned(),
            },
        );
        i = i + 1;
    }
    let mut inputs: Vec<WorkflowInput> = Vec::new();
    let mut j: usize = 0;
    while j < declared.len()
        invariant
            j <= declared.len(),
            wanted == views(declared@),
            inputs@.len() == j,
            forall|k: int| 0 <= k < j ==> (#[trigger] inputs@[k])@ == input_of(wanted[k]),
        decreases declared.len() - j,
    {
        assert(wanted[j as int] == declared@[j as int]@);
        inputs.push(
            WorkflowInput {
                name: declared[j].name.clone(),
                ty: InputType::String,
                required: declared[j].required,
                default: None,
                description: Some(declared[j].description.clone()),
            },
        );
        j = j + 1;
    }
    let name = graph_name(steps);
    let graph = WorkflowGraph {
        schema_version: 1,
        id: None,
        name,
        inputs,
        agents: Vec::new(),
        nodes,
        edges,
    };
    proof {
        assert(graph@.nodes =~= g.nodes);
        assert(graph@.edges =~= g.edges);
        assert(graph@.inputs =~= g.inputs);
        assert(graph@.agents =~= g.agents);
    }
    graph
}

/// Lowers a recipe reply into a runnable graph, its run values, and the
/// reason it gives; or names every structural problem at once.
pub fn lower(answer: &Json) -> (r: Result<
    (WorkflowGraph, Vec<(String, Json)>, String),
    IntakeError,
>)
    ensures
        match r {
            Ok((graph, inputs, why)) => lowered(answer@) == Ok::<
                (GraphView, Seq<(Seq<char>, JsonView)>, Seq<char>),
                IntakeErrorView,
            >((graph@, members(inputs@), why@)),
            Err(error) => lowered(answer@) == Err::<
                (GraphView, Seq<(Seq<char>, JsonView)>, Seq<char>),
                IntakeErrorView,
            >(error@),
        },
{
    let why = answer.text_or_empty("why");
    match parse_steps(answer) {
        Err(error) => Err(error),
        Ok(steps) => {
            let declared = parse_declared(answer);
            let supplied = match answer.get("inputs") {
                Some(value) => value.as_object(),
                None => None,
            };
            let inputs: Vec<(String, Json)> = match supplied {
                Some(entries) => copy_members(entries),
                None => Vec::new(),
            };
            assert(members(inputs@) =~= inputs_of(answer@));
            let graph = build_graph(&steps, &declared);
            Ok((graph, inputs, why))
        },
    }
}

} // verus!
