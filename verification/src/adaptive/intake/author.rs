//! Writing a graph when nothing stored fits.
//!
//! The catalogue of node kinds is rendered from the contracts, so that no
//! field can be invented; and a graph that does not validate, or that the host
//! cannot run, is an error here and never an attempt.
use vstd::prelude::*;

use crate::adaptive::contracts::{Approach, ApproachView, Goal, GoalView, Tier};
use crate::adaptive::intake::reply::{ask_request, request_json};
use crate::adaptive::intake::select::{members_in, members_of};
use crate::adaptive::intake::shape::{digest_of, names_are_no_new_idea, shape_digest, shape_of};
use crate::adaptive::intake::{attempt_view, Attempt, AttemptView, IntakeError, IntakeErrorView};
use crate::catalog::contracts::{
    all_contracts, every_contract, ConfigField, ContractView, FieldView, NodeKindContract,
};
use crate::error::{ErrorView, ValidationError};
use crate::json::{Json, JsonView};
use crate::json_text::json_text;
use crate::model::graph::{GraphView, WorkflowGraph};
use crate::text::{join, joined_text, same, trim, trimmed, views};
use crate::validate::{graph_errors, validate_all};

verus! {

/// What the author of a graph is told.
pub const SYSTEM: &'static str = "\
You write a workflow graph that achieves a goal.

Return JSON: {\"graph\": <WorkflowGraph>, \"why\": str, \"inputs\": {name: value}}

The graph is the engine's own format:
{\"schema_version\": 1, \"name\": str, \"inputs\": [{\"name\", \"required\", \"description\"}],
 \"nodes\": [{\"id\", \"kind\", \"name\", \"config\": {...}}],
 \"edges\": [{\"from_node\", \"from_port\", \"to_node\", \"to_port\"}]}

Rules that are checked, not requested:

- Exactly one `trigger` node, and it is where the graph starts.
- Every node kind and every config field must come from the catalogue below.
  It is generated from the engine, so it is the truth; a field you remember
  from elsewhere is a field that resolves to null at run time.
- Ports default to `main` on both ends. Name one only where the catalogue says
  a node has others (a `condition` emits `true`/`false`; a `loop` emits `body`
  and `done`).
- Declare in `inputs` anything the goal supplies as data — a repository, a path,
  an id — and read it in config rather than pasting the literal. A graph with
  the value baked in is a graph that works once.

How one node reads another. A config string starting with `=` is an expression;
everything else is a literal.

    =item.name                     a field of the direct predecessor's output
    =nodes.fetch.item.json.body    a field of any completed node, by node id
    =run.trigger.payload           what the trigger carried
    =.items | length               a leading dot makes the rest a jq program

There are no braces. `={{ ... }}` is not a binding — it is a jq program that
fails to compile, and a failed program is null, so the step runs with an empty
value and reports success.

`agent`, `tool_call` and `http_request` wrap their output in
`{json, text, raw}`. Their fields are under `.json`: write
`=nodes.fetch.item.json.body`, never `=nodes.fetch.item.body`. The second form
validates, dry-runs green, and resolves to null every time.

Design guidance, which is judgement rather than a check:

- Fewer nodes is better. An `agent` node is a whole coding-agent session on some
  hosts — minutes, not seconds — so a graph of eight is usually a worse answer
  than a graph of three.
- Use `agent` for work that cannot be specified, and the determined kinds for
  everything else. Fetching, reshaping and branching are not agent work.
- Say what a step is for, concretely. The agent running it sees the goal and
  that instruction and nothing else — not the other nodes, not what they found.

Where a section below states what this host permits, it is the machine's own
configuration and is enforced when the graph runs. A graph that ignores it saves
cleanly, validates cleanly, and fails the first time it matters.

Where a section lists what this episode already tried, write something
DIFFERENT. Not the same graph with a reworded prompt — a different shape: other
nodes, another order, a step that checks what the last attempt assumed. If every
approach you can think of is already on that list, say so in `why` and write the
smallest graph that would establish which assumption is wrong.";

/// The line of one field: a mark where it is required, its type, and the
/// values it allows.
pub open spec fn field_line(field: FieldView) -> Seq<char> {
    "    "@ + (if field.required {
        "*"@
    } else {
        " "@
    }) + field.name + ": "@ + field.value_type + (match field.enum_values {
        Some(values) => if values.len() > 0 {
            " ["@ + joined_text(values, "|"@) + "]"@
        } else {
            Seq::empty()
        },
        None => Seq::empty(),
    })
}

/// The lines of every field.
pub open spec fn field_lines(fields: Seq<FieldView>) -> Seq<Seq<char>> {
    Seq::new(fields.len(), |i: int| field_line(fields[i]))
}

/// The output ports of a kind, where they are not the default one.
pub open spec fn port_line(outputs: Seq<Seq<char>>) -> Seq<char> {
    if outputs == seq!["main"@] || outputs.len() == 0 {
        Seq::empty()
    } else {
        "  out ports: "@ + joined_text(outputs, ", "@) + "\n"@
    }
}

/// The entry of one node kind.
pub open spec fn contract_text(contract: ContractView) -> Seq<char> {
    contract.kind + ": "@ + contract.summary + "\n"@ + port_line(contract.ports.outputs)
        + joined_text(field_lines(contract.config_fields), "\n"@)
}

/// The entries of every node kind.
pub open spec fn contract_texts(contracts: Seq<ContractView>) -> Seq<Seq<char>> {
    Seq::new(contracts.len(), |i: int| contract_text(contracts[i]))
}

/// The catalogue of node kinds.
pub open spec fn catalogue_text(others: Seq<ContractView>) -> Seq<char> {
    joined_text(contract_texts(every_contract(others)), "\n"@)
}

fn render_field(field: &ConfigField) -> (r: String)
    ensures
        r@ == field_line(field@),
{
    let mut text = "    ".to_owned();
    if field.required {
        text.append("*");
    } else {
        text.append(" ");
    }
    text.append(field.name.as_str());
    text.append(": ");
    text.append(field.value_type.as_str());
    match &field.enum_values {
        Some(values) => {
            if values.len() > 0 {
                let listed = join(values, "|");
                text.append(" [");
                text.append(listed.as_str());
                text.append("]");
            }
        },
        None => {},
    }
    assert(text@ =~= field_line(field@));
    text
}

fn render_ports(outputs: &Vec<String>) -> (r: String)
    ensures
        r@ == port_line(views(outputs@)),
{
    let ghost shown = views(outputs@);
    let plain = outputs.len() == 1 && same(outputs[0].as_str(), "main");
    proof {
        if outputs@.len() == 1 {
            assert(shown[0] == outputs@[0]@);
            assert(shown =~= seq![outputs@[0]@]);
        }
        if shown == seq!["main"@] {
            assert(shown.len() == 1);
            assert(shown[0] == "main"@);
        }
    }
    if plain || outputs.len() == 0 {
        let none = String::new();
        assert(none@ =~= Seq::empty());
        return none;
    }
    let listed = join(outputs, ", ");
    let mut text = "  out ports: ".to_owned();
    text.append(listed.as_str());
    text.append("\n");
    text
}

/// Renders one node kind for a prompt.
pub fn render(contract: &NodeKindContract) -> (r: String)
    ensures
        r@ == contract_text(contract@),
{
    let mut lines: Vec<String> = Vec::new();
    let mut i: usize = 0;
    while i < contract.config_fields.len()
        invariant
            i <= contract.config_fields@.len(),
            lines@.len() == i,
            forall|k: int|
                0 <= k < i ==> (#[trigger] lines@[k])@ == field_line(contract.config_fields@[k]@),
        decreases contract.config_fields@.len() - i,
    {
        lines.push(render_field(&contract.config_fields[i]));
        i = i + 1;
    }
    assert(views(lines@) =~= field_lines(contract@.config_fields));
    let fields = join(&lines, "\n");
    let ports = render_ports(&contract.ports.outputs);
    let mut text = contract.kind.clone();
    text.append(": ");
    text.append(contract.summary.as_str());
    text.append("\n");
    text.append(ports.as_str());
    text.append(fields.as_str());
    text
}

/// The catalogue of node kinds, rendered for a prompt. `others` are the
/// contracts of the kinds that neither open nor collect lanes.
pub fn catalogue(others: Vec<NodeKindContract>) -> (r: String)
    ensures
        r@ == catalogue_text(views(others@)),
{
    let contracts = all_contracts(others);
    let mut texts: Vec<String> = Vec::new();
    let mut i: usize = 0;
    while i < contracts.len()
        invariant
            i <= contracts@.len(),
            texts@.len() == i,
            forall|k: int| 0 <= k < i ==> (#[trigger] texts@[k])@ == contract_text(contracts@[k]@),
        decreases contracts@.len() - i,
    {
        texts.push(render(&contracts[i]));
        i = i + 1;
    }
    assert(views(texts@) =~= contract_texts(views(contracts@)));
    join(&texts, "\n")
}

/// What the author is asked: the goal, the catalogue, what the host permits
/// where it says so, and what was tried.
pub open spec fn author_question(
    goal: GoalView,
    others: Seq<ContractView>,
    permitted: Seq<char>,
    past: Seq<char>,
) -> Seq<char> {
    "# Goal\n"@ + trimmed(goal.text)
        + "\n\n# Node catalogue — the only kinds and fields that exist\n"@ + catalogue_text(others) + (
    if permitted.len() == 0 {
        Seq::empty()
    } else {
        "\n\n"@ + permitted
    }) + past
}

/// The request that asks for a graph, written against the contracts `others`
/// and those of the kinds that open and collect lanes.
pub fn author_request(
    goal: &Goal,
    others: Vec<NodeKindContract>,
    permitted: &str,
    past: &str,
) -> (r: Json)
    ensures
        r@ == request_json(
            Tier::Author,
            SYSTEM@,
            author_question(goal@, views(others@), permitted@, past@),
        ),
{
    let wanted = trim(goal.text.as_str());
    let kinds = catalogue(others);
    let mut user = "# Goal\n".to_owned();
    user.append(wanted.as_str());
    user.append("\n\n# Node catalogue — the only kinds and fields that exist\n");
    user.append(kinds.as_str());
    if !permitted.is_empty() {
        user.append("\n\n");
        user.append(permitted);
    }
    user.append(past);
    assert(user@ =~= author_question(goal@, views(others@), permitted@, past@));
    ask_request(Tier::Author, SYSTEM, user.as_str())
}

/// The graph an answer holds, as the host has still to read it.
pub fn answered_graph(answer: &Json) -> (r: Result<Json, IntakeError>)
    ensures
        match answer@.get("graph"@) {
            Some(raw) => r matches Ok(graph) && graph@ == raw,
            None => r matches Err(error) && error@ == IntakeErrorView::Inference(
                "the reply has no `graph` key"@,
            ),
        },
{
    match answer.get("graph") {
        Some(raw) => Ok(raw.clone()),
        None => Err(IntakeError::Inference("the reply has no `graph` key".to_owned())),
    }
}

/// The messages of the problems.
pub open spec fn problem_texts(problems: Seq<ErrorView>) -> Seq<Seq<char>> {
    Seq::new(problems.len(), |i: int| problems[i].message())
}

/// Every problem at once.
pub open spec fn problems_text(problems: Seq<ErrorView>) -> Seq<char> {
    joined_text(problem_texts(problems), "; "@)
}

/// A graph is checked before anything is asked of the host: what was read
/// where it validates, and else every problem.
pub open spec fn checked(parsed: Result<GraphView, Seq<char>>) -> Result<
    GraphView,
    IntakeErrorView,
> {
    match parsed {
        Ok(graph) => if graph_errors(graph).len() == 0 {
            Ok(graph)
        } else {
            Err(IntakeErrorView::Invalid(problems_text(graph_errors(graph))))
        },
        Err(text) => Err(IntakeErrorView::Invalid("not a workflow graph: "@ + text)),
    }
}

fn list_problems(problems: &Vec<ValidationError>) -> (r: String)
    ensures
        r@ == problems_text(views(problems@)),
{
    let mut texts: Vec<String> = Vec::new();
    let mut i: usize = 0;
    while i < problems.len()
        invariant
            i <= problems@.len(),
            texts@.len() == i,
            forall|k: int| 0 <= k < i ==> (#[trigger] texts@[k])@ == problems@[k]@.message(),
        decreases problems@.len() - i,
    {
        texts.push(problems[i].message());
        i = i + 1;
    }
    assert(views(texts@) =~= problem_texts(views(problems@)));
    join(&texts, "; ")
}

/// Checks a graph that was read from an answer; `parsed` is the graph, or why
/// it could not be read as one.
pub fn check_graph(parsed: Result<WorkflowGraph, String>) -> (r: Result<WorkflowGraph, IntakeError>)
    ensures
        (match r {
            Ok(graph) => Ok(graph@),
            Err(error) => Err(error@),
        }) == checked(
            (match parsed {
                Ok(graph) => Ok(graph@),
                Err(text) => Err(text@),
            }),
        ),
{
    match parsed {
        Ok(graph) => {
            let problems = validate_all(&graph);
            assert(views(problems@).len() == problems@.len());
            if problems.len() == 0 {
                Ok(graph)
            } else {
                Err(IntakeError::Invalid(list_problems(&problems)))
            }
        },
        Err(text) => {
            let mut message = "not a workflow graph: ".to_owned();
            message.append(text.as_str());
            Err(IntakeError::Invalid(message))
        },
    }
}

/// The character of a hexadecimal digit.
pub open spec fn hex_digit(d: nat) -> char {
    if d < 10 {
        ((48 + d) as u8) as char
    } else {
        ((87 + d) as u8) as char
    }
}

/// The last `k` hexadecimal digits of a number.
pub open spec fn hex_tail(n: nat, k: nat) -> Seq<char>
    decreases k,
{
    if k == 0 {
        Seq::empty()
    } else {
        hex_tail(n / 16, (k - 1) as nat).push(hex_digit(n % 16))
    }
}

fn hex_text(n: u64, k: usize) -> (r: String)
    ensures
        r@ == hex_tail(n as nat, k as nat),
    decreases k,
{
    if k == 0 {
        return String::new();
    }
    let mut text = hex_text(n / 16, k - 1);
    let d: u8 = (n % 16) as u8;
    if d < 10 {
        text.push((48 + d) as char);
    } else {
        text.push((87 + d) as char);
    }
    text
}

/// The last seven hexadecimal digits of a digest.
pub fn short_digest(digest: u64) -> (r: String)
    ensures
        r@ == hex_tail(digest as nat, 7),
{
    hex_text(digest, 7)
}

/// What a written graph is recognised by: the last digits of a digest of its
/// runnable shape.
pub open spec fn mark_of(graph: GraphView) -> Seq<char> {
    hex_tail(digest_of(json_text(shape_of(graph))) as nat, 7)
}

/// What a written graph is recognised by.
pub fn fingerprint(graph: &WorkflowGraph) -> (r: String)
    ensures
        r@ == mark_of(graph@),
{
    short_digest(shape_digest(graph))
}

/// The host's own refusals stop a graph: what its facts rule out first, and
/// then what its policy does.
pub open spec fn refusal(refused: Seq<Seq<char>>, policy: Option<Seq<char>>) -> Option<
    IntakeErrorView,
> {
    if refused.len() > 0 {
        Some(IntakeErrorView::Unsupported(joined_text(refused, "; "@)))
    } else {
        match policy {
            Some(text) => Some(IntakeErrorView::Unsupported(text)),
            None => None,
        }
    }
}

/// A checked graph as an attempt.
pub open spec fn authored(answer: JsonView, graph: GraphView) -> AttemptView {
    AttemptView {
        approach: ApproachView::Authored {
            why: answer.text_or_empty("why"@),
            fingerprint: mark_of(graph),
        },
        graph,
        inputs: members_of(answer.at("inputs"@)),
        lessons_shown: Seq::empty(),
    }
}

/// Makes an attempt of a graph that passed [`check_graph`], unless the host
/// refuses it: `refused` is what its facts rule out, and `policy` what its
/// policy says against it.
pub fn author(
    answer: &Json,
    graph: WorkflowGraph,
    refused: &Vec<String>,
    policy: Option<String>,
) -> (r: Result<Attempt, IntakeError>)
    requires
        graph_errors(graph@).len() == 0,
    ensures
        attempt_view(r) == (match refusal(views(refused@), crate::text::opt_view(policy)) {
            Some(error) => Err(error),
            None => Ok(authored(answer@, graph@)),
        }),
{
    if refused.len() > 0 {
        return Err(IntakeError::Unsupported(join(refused, "; ")));
    }
    match policy {
        Some(text) => {
            return Err(IntakeError::Unsupported(text));
        },
        None => {},
    }
    let given = answer.at("inputs");
    let fingerprint = fingerprint(&graph);
    let attempt = Attempt {
        approach: Approach::Authored {
            why: answer.text_or_empty("why"),
            fingerprint,
        },
        graph,
        inputs: members_in(&given),
        lessons_shown: Vec::new(),
    };
    assert(attempt@.lessons_shown =~= Seq::empty());
    Ok(attempt)
}

/// A graph that passes the check validates, and one that does not is refused
/// with every problem it has.
pub proof fn only_valid_graphs_are_authored(graph: GraphView)
    ensures
        checked(Ok(graph)) matches Ok(passed) ==> passed == graph && graph_errors(graph).len() == 0,
        graph_errors(graph).len() > 0 ==> checked(Ok(graph)) == Err::<GraphView, IntakeErrorView>(
            IntakeErrorView::Invalid(problems_text(graph_errors(graph))),
        ),
{
}

/// A second graph that runs like the first is a repeat of it: graphs with the
/// same nodes, edges and inputs have one signature, whatever they are called and
/// whatever is said of them.
pub proof fn repeats_are_recognised(
    a: GraphView,
    b: GraphView,
    said_of_a: JsonView,
    said_of_b: JsonView,
)
    requires
        a.nodes == b.nodes,
        a.edges == b.edges,
        a.inputs == b.inputs,
    ensures
        authored(said_of_a, a).approach.signature() == authored(said_of_b, b).approach.signature(),
{
    names_are_no_new_idea(a, b);
}

} // verus!
