//! What holds of every recipe that is lowered, and which ones are.
use vstd::prelude::*;

use crate::adaptive::intake::IntakeErrorView;
use crate::adaptive::intake::recipe::{
    bad_reads, declared_inputs, declared_of, first_ask, forward_read, good_reads, has_step,
    input_part, input_parts, is_first_step, jq_quoted, lowered, lowered_graph, parsed_steps,
    read_part, read_parts, read_step, read_steps, safe_char, safe_chars, sanitized, step_edge,
    step_ids, step_node, ActionView, DeclaredView, Reading, StepView,
};
use crate::json::{lemma_member_reads, lemma_no_member, JsonView};
use crate::literals::is_expression;
use crate::model::graph::{addressable, EdgeView, GraphView, InputType, NodeKind};
use crate::text::{
    decimal, joined_text, lemma_occurs_last, lemma_occurs_on, lemma_parts_occur, occurs_in, trimmed,
    words,
};

verus! {

/// The steps of a recipe as they were written.
pub open spec fn written(answer: JsonView) -> Seq<JsonView> {
    match answer.at("steps"@) {
        JsonView::Array(raw) => raw,
        _ => Seq::empty(),
    }
}

/// What a written step lists under `reads`.
pub open spec fn listed(step: JsonView) -> Seq<JsonView> {
    match step.at("reads"@) {
        JsonView::Array(reads) => reads,
        _ => Seq::empty(),
    }
}

/// The id that an entry of `reads` stands for.
pub open spec fn stands_for(read: JsonView) -> Seq<char> {
    match read {
        JsonView::String(text) => sanitized(text),
        _ => sanitized(Seq::empty()),
    }
}

/// The id a written step goes by.
pub open spec fn goes_by(step: JsonView) -> Seq<char> {
    sanitized(step.text_or_empty("id"@))
}

/// There is text under the key, and more than white space.
pub open spec fn says(step: JsonView, key: Seq<char>) -> bool {
    step.text_at(key) matches Some(text) && trimmed(text).len() > 0
}

/// A written step that can be run: under an id of its own, with either a script
/// or an instruction, by no worker that an expression chooses; and it reads only
/// steps before it, which a script cannot.
pub open spec fn is_sound(raw: Seq<JsonView>, i: int) -> bool {
    let step = raw[i];
    &&& goes_by(step).len() > 0
    &&& goes_by(step) != "start"@
    &&& forall|k: int| 0 <= k < i ==> goes_by(#[trigger] raw[k]) != goes_by(step)
    &&& says(step, "run"@) != says(step, "ask"@)
    &&& says(step, "ask"@) && says(step, "worker"@) ==> !is_expression(
        trimmed(step.text_or_empty("worker"@)),
    )
    &&& step.at("reads"@) matches JsonView::Array(reads) ==> forall|r: int|
        0 <= r < reads.len() ==> exists|k: int|
            0 <= k < i && goes_by(#[trigger] raw[k]) == stands_for(#[trigger] reads[r])
    &&& says(step, "run"@) ==> listed(step).len() == 0
}

/// A step that was read is the written one: its id, and its script or its
/// instruction and worker, without the white space around them, and what it
/// reads.
pub open spec fn is_reading_of(step: StepView, raw: JsonView) -> bool {
    &&& step.id == goes_by(raw)
    &&& says(raw, "run"@) ==> step.action == ActionView::Run(trimmed(raw.text_or_empty("run"@)))
    &&& says(raw, "ask"@) && !says(raw, "run"@) ==> (step.action matches ActionView::Ask {
        prompt,
        worker,
    } && prompt == trimmed(raw.text_or_empty("ask"@)) && (says(raw, "worker"@) ==> worker == Some(
        trimmed(raw.text_or_empty("worker"@)),
    )) && (!says(raw, "worker"@) ==> worker is None))
    &&& step.reads == Seq::new(listed(raw).len(), |r: int| stands_for(listed(raw)[r]))
}

proof fn lemma_bad_reads(steps: Seq<StepView>, id: Seq<char>, raw: Seq<JsonView>, n: nat)
    requires
        n <= raw.len(),
    ensures
        bad_reads(steps, id, raw, n).len() == 0 <==> forall|r: int|
            0 <= r < n ==> has_step(steps, stands_for(#[trigger] raw[r])),
        bad_reads(steps, id, raw, n).len() == 0 ==> good_reads(steps, raw, n) == Seq::new(
            n,
            |r: int| stands_for(raw[r]),
        ),
    decreases n,
{
    if n > 0 {
        lemma_bad_reads(steps, id, raw, (n - 1) as nat);
        if bad_reads(steps, id, raw, n).len() == 0 {
            assert(good_reads(steps, raw, n) =~= Seq::new(n, |r: int| stands_for(raw[r])));
        }
    } else {
        assert(good_reads(steps, raw, n) =~= Seq::new(n, |r: int| stands_for(raw[r])));
    }
}

proof fn lemma_readings(raw: Seq<JsonView>, n: nat)
    requires
        n <= raw.len(),
    ensures
        read_steps(raw, n).problems.len() == 0 <==> forall|i: int|
            0 <= i < n ==> #[trigger] is_sound(raw, i),
        read_steps(raw, n).problems.len() == 0 ==> read_steps(raw, n).steps.len() == n && forall|
            i: int,
        |
            0 <= i < n ==> is_reading_of(#[trigger] read_steps(raw, n).steps[i], raw[i]),
    decreases n,
{
    if n > 0 {
        lemma_readings(raw, (n - 1) as nat);
        let before = read_steps(raw, (n - 1) as nat);
        let after = read_steps(raw, n);
        let i = n - 1;
        let step = raw[i];
        let id = goes_by(step);
        let reads = listed(step);
        lemma_bad_reads(before.steps, id, reads, reads.len());
        assert(after.problems.len() >= before.problems.len());
        if before.problems.len() == 0 {
            assert(has_step(before.steps, id) <==> exists|k: int|
                0 <= k < i && goes_by(#[trigger] raw[k]) == id) by {
                if has_step(before.steps, id) {
                    let k = choose|k: int|
                        0 <= k < before.steps.len() && (#[trigger] before.steps[k]).id == id;
                    assert(is_reading_of(before.steps[k], raw[k]));
                    assert(goes_by(raw[k]) == id);
                }
                if exists|k: int| 0 <= k < i && goes_by(#[trigger] raw[k]) == id {
                    let k = choose|k: int| 0 <= k < i && goes_by(#[trigger] raw[k]) == id;
                    assert(is_reading_of(before.steps[k], raw[k]));
                }
            }
            assert forall|r: int| 0 <= r < reads.len() implies (has_step(
                before.steps,
                stands_for(#[trigger] reads[r]),
            ) <==> exists|k: int|
                0 <= k < i && goes_by(#[trigger] raw[k]) == stands_for(reads[r])) by {
                let named = stands_for(reads[r]);
                if has_step(before.steps, named) {
                    let k = choose|k: int|
                        0 <= k < before.steps.len() && (#[trigger] before.steps[k]).id == named;
                    assert(is_reading_of(before.steps[k], raw[k]));
                    assert(goes_by(raw[k]) == named);
                }
                if exists|k: int| 0 <= k < i && goes_by(#[trigger] raw[k]) == named {
                    let k = choose|k: int| 0 <= k < i && goes_by(#[trigger] raw[k]) == named;
                    assert(is_reading_of(before.steps[k], raw[k]));
                }
            }
            if after.problems.len() == 0 {
                assert(is_sound(raw, i));
                assert(is_reading_of(after.steps[i], step));
                assert forall|k: int| 0 <= k < n implies is_reading_of(
                    #[trigger] after.steps[k],
                    raw[k],
                ) by {
                    if k < i {
                        assert(after.steps[k] == before.steps[k]);
                    }
                }
            }
            if is_sound(raw, i) {
                assert(after.problems.len() == 0);
            }
        }
    }
}

/// A recipe is lowered exactly where it has steps and every one of them can be
/// run.
pub proof fn sound_recipes_are_lowered(answer: JsonView)
    ensures
        lowered(answer) is Ok <==> written(answer).len() > 0 && forall|i: int|
            0 <= i < written(answer).len() ==> #[trigger] is_sound(written(answer), i),
{
    let raw = written(answer);
    lemma_readings(raw, raw.len());
}

proof fn lemma_steps(answer: JsonView)
    requires
        lowered(answer) is Ok,
    ensures
        ({
            let raw = written(answer);
            let steps = parsed_steps(answer)->Ok_0;
            &&& raw.len() > 0
            &&& steps.len() == raw.len()
            &&& forall|i: int| 0 <= i < raw.len() ==> is_reading_of(#[trigger] steps[i], raw[i])
            &&& lowered(answer)->Ok_0.0 == lowered_graph(steps, declared_of(answer))
        }),
{
    let raw = written(answer);
    lemma_readings(raw, raw.len());
}

/// A lowered recipe starts by hand and then has a node per step, in the order in
/// which they were written, each led to from the one before it.
pub proof fn steps_run_in_the_order_written(answer: JsonView, i: int)
    requires
        lowered(answer) is Ok,
        0 <= i < written(answer).len(),
    ensures
        lowered(answer) matches Ok((graph, _, _)) && {
            &&& graph.nodes.len() == written(answer).len() + 1
            &&& graph.nodes[0].kind == NodeKind::Trigger
            &&& graph.nodes[0].config.text_at("trigger_kind"@) == Some("manual"@)
            &&& graph.nodes[i + 1].id == goes_by(written(answer)[i])
            &&& graph.edges.len() == written(answer).len()
            &&& graph.edges[i] == (EdgeView {
                from_node: graph.nodes[i].id,
                from_port: "main"@,
                to_node: graph.nodes[i + 1].id,
                to_port: "main"@,
            })
        },
{
    lemma_steps(answer);
    let steps = parsed_steps(answer)->Ok_0;
    let graph = lowered(answer)->Ok_0.0;
    assert(is_reading_of(steps[i], written(answer)[i]));
    lemma_member_reads(graph.nodes[0].config->Object_0, 0);
    assert(graph.nodes[i + 1] == step_node(steps[i], steps, declared_of(answer)));
    assert(graph.edges[i] == step_edge(steps, i));
    if i > 0 {
        assert(graph.nodes[i] == step_node(steps[i - 1], steps, declared_of(answer)));
    }
}

/// A path of edges leads from one node to another.
pub open spec fn leads(graph: GraphView, from: Seq<char>, to: Seq<char>, n: nat) -> bool
    decreases n,
{
    from == to || (n > 0 && exists|e: int|
        0 <= e < graph.edges.len() && (#[trigger] graph.edges[e]).from_node == from && leads(
            graph,
            graph.edges[e].to_node,
            to,
            (n - 1) as nat,
        ))
}

/// Whatever comes earlier in a recipe has run before whatever comes later: a path
/// leads from the one to the other.
pub proof fn earlier_steps_run_before_later_ones(answer: JsonView, i: int, k: int)
    requires
        lowered(answer) is Ok,
        0 <= i <= k <= written(answer).len(),
    ensures
        lowered(answer) matches Ok((graph, _, _)) && leads(
            graph,
            graph.nodes[i].id,
            graph.nodes[k].id,
            (k - i) as nat,
        ),
    decreases k - i,
{
    if i < k {
        steps_run_in_the_order_written(answer, i);
        earlier_steps_run_before_later_ones(answer, i + 1, k);
        let graph = lowered(answer)->Ok_0.0;
        assert(graph.edges[i].from_node == graph.nodes[i].id);
    }
}

/// A script is run as it was written, and an instruction is asked of an agent, on
/// the worker it names and on none where it names none.
pub proof fn steps_do_what_they_say(answer: JsonView, i: int)
    requires
        lowered(answer) is Ok,
        0 <= i < written(answer).len(),
    ensures
        lowered(answer) matches Ok((graph, _, _)) && {
            let step = written(answer)[i];
            let node = graph.nodes[i + 1];
            &&& says(step, "run"@) ==> node.kind == NodeKind::Shell && node.config.text_at(
                "script"@,
            ) == Some(trimmed(step.text_or_empty("run"@)))
            &&& says(step, "ask"@) ==> node.kind == NodeKind::Agent && (node.config.text_at(
                "prompt"@,
            ) matches Some(prompt) && ("="@ + jq_quoted(
                trimmed(step.text_or_empty("ask"@)),
            )).is_prefix_of(prompt))
            &&& says(step, "ask"@) && says(step, "worker"@) ==> node.config.text_at("agent_ref"@)
                == Some(trimmed(step.text_or_empty("worker"@)))
            &&& says(step, "ask"@) && !says(step, "worker"@) ==> node.config.get(
                "agent_ref"@,
            ) is None
        },
{
    lemma_steps(answer);
    let raw = written(answer);
    lemma_readings(raw, raw.len());
    assert(is_sound(raw, i));
    let steps = parsed_steps(answer)->Ok_0;
    let declared = declared_of(answer);
    let graph = lowered(answer)->Ok_0.0;
    assert(is_reading_of(steps[i], raw[i]));
    assert(graph.nodes[i + 1] == step_node(steps[i], steps, declared));
    reveal_strlit("prompt");
    reveal_strlit("agent_ref");
    assert("prompt"@.len() == 6 && "agent_ref"@.len() == 9);
    let entries = graph.nodes[i + 1].config->Object_0;
    lemma_member_reads(entries, 0);
    if says(raw[i], "ask"@) {
        if says(raw[i], "worker"@) {
            lemma_member_reads(entries, 1);
        } else {
            lemma_no_member(entries, "agent_ref"@);
        }
        let front = "="@ + jq_quoted(trimmed(raw[i].text_or_empty("ask"@)));
        let prompt = graph.nodes[i + 1].config.text_at("prompt"@)->0;
        assert(prompt.subrange(0, front.len() as int) =~= front);
    }
}

/// One text stands in another.
pub open spec fn holds(text: Seq<char>, part: Seq<char>, at: int) -> bool {
    0 <= at && at + part.len() <= text.len() && text.subrange(at, at + part.len()) == part
}

proof fn lemma_holds(a: Seq<char>, part: Seq<char>, b: Seq<char>)
    ensures
        holds(a + part + b, part, a.len() as int),
{
    assert((a + part + b).subrange(a.len() as int, (a.len() + part.len()) as int) =~= part);
}

proof fn lemma_inner(outer: Seq<char>, at: int, middle: Seq<char>, k: int, inner: Seq<char>)
    requires
        holds(outer, middle, at),
        holds(middle, inner, k),
    ensures
        holds(outer, inner, at + k),
{
    assert(outer.subrange(at + k, at + k + inner.len()) =~= middle.subrange(k, k + inner.len()));
}

proof fn lemma_read_parts(steps: Seq<StepView>, reads: Seq<Seq<char>>, n: nat, r: int) -> (at: int)
    requires
        0 <= r < n <= reads.len(),
    ensures
        holds(read_parts(steps, reads, n), read_part(steps, reads[r]), at),
    decreases n,
{
    let before = read_parts(steps, reads, (n - 1) as nat);
    let last = read_part(steps, reads[n - 1]);
    if r < n - 1 {
        let at = lemma_read_parts(steps, reads, (n - 1) as nat, r);
        assert(before + last =~= Seq::empty() + before + last);
        lemma_holds(Seq::empty(), before, last);
        lemma_inner(before + last, 0, before, at, read_part(steps, reads[r]));
        at
    } else {
        assert(before + last =~= before + last + Seq::empty());
        lemma_holds(before, last, Seq::empty());
        before.len() as int
    }
}

proof fn lemma_input_parts(declared: Seq<DeclaredView>, n: nat, r: int) -> (at: int)
    requires
        0 <= r < n <= declared.len(),
    ensures
        holds(input_parts(declared, n), input_part(declared[r].name), at),
    decreases n,
{
    let before = input_parts(declared, (n - 1) as nat);
    let last = input_part(declared[n - 1].name);
    if r < n - 1 {
        let at = lemma_input_parts(declared, (n - 1) as nat, r);
        assert(before + last =~= Seq::empty() + before + last);
        lemma_holds(Seq::empty(), before, last);
        lemma_inner(before + last, 0, before, at, input_part(declared[r].name));
        at
    } else {
        assert(before + last =~= before + last + Seq::empty());
        lemma_holds(before, last, Seq::empty());
        before.len() as int
    }
}

/// What an instruction reads is put into its prompt: a script's output from what
/// the script printed, and an agent's from what the agent said.
pub proof fn read_outputs_reach_the_prompt(answer: JsonView, i: int, r: int, k: int) -> (at: int)
    requires
        lowered(answer) is Ok,
        0 <= i < written(answer).len(),
        says(written(answer)[i], "ask"@),
        0 <= r < listed(written(answer)[i]).len(),
        0 <= k < i,
        goes_by(written(answer)[k]) == stands_for(listed(written(answer)[i])[r]),
    ensures
        lowered(answer) matches Ok((graph, _, _)) && {
            let named = goes_by(written(answer)[k]);
            let prompt = graph.nodes[i + 1].config.text_or_empty("prompt"@);
            &&& says(written(answer)[k], "run"@) ==> holds(
                prompt,
                "(.nodes."@ + named + ".item.json.stdout"@,
                at,
            )
            &&& says(written(answer)[k], "ask"@) ==> holds(
                prompt,
                "(.nodes."@ + named + ".item.json.text"@,
                at,
            )
        },
{
    lemma_steps(answer);
    let raw = written(answer);
    lemma_readings(raw, raw.len());
    assert(is_sound(raw, i));
    assert(is_sound(raw, k));
    let steps = parsed_steps(answer)->Ok_0;
    let declared = declared_of(answer);
    let graph = lowered(answer)->Ok_0.0;
    assert(is_reading_of(steps[i], raw[i]));
    assert(is_reading_of(steps[k], raw[k]));
    assert(graph.nodes[i + 1] == step_node(steps[i], steps, declared));
    lemma_member_reads(graph.nodes[i + 1].config->Object_0, 0);
    let reads = steps[i].reads;
    let named = reads[r];
    assert(named == goes_by(raw[k]));
    assert(is_first_step(steps, named, k)) by {
        assert forall|j: int| 0 <= j < k implies (#[trigger] steps[j]).id != named by {
            assert(is_reading_of(steps[j], raw[j]));
            assert(goes_by(raw[j]) != goes_by(raw[k]));
        }
    }
    let part = read_part(steps, named);
    let head = " + "@ + jq_quoted("\n\n# Output of step `"@ + named + "`\n"@) + " + ("@;
    let field = if steps[k].action is Run {
        ".item.json.stdout"@
    } else {
        ".item.json.text"@
    };
    let inner = "(.nodes."@ + named + field;
    let rest = " // \"(no output)\")"@;
    lemma_output_text();
    assert forall|j: int| #[trigger] is_first_step(steps, named, j) implies j == k by {
        if j < k {
            assert(steps[j].id != named);
        }
    }
    if steps[k].action is Run {
        assert(is_first_step(steps, named, k) && steps[k].action is Run);
    }
    assert(part =~= head + inner + (rest + " | tostring)"@));
    lemma_holds(head, inner, rest + " | tostring)"@);
    let k1 = lemma_read_parts(steps, reads, reads.len(), r);
    let all = read_parts(steps, reads, reads.len());
    let prompt_text = graph.nodes[i + 1].config.text_or_empty("prompt"@);
    let front = "="@ + jq_quoted(steps[i].action->prompt) + input_parts(declared, declared.len());
    assert(prompt_text =~= front + all + Seq::empty());
    lemma_holds(front, all, Seq::empty());
    lemma_inner(prompt_text, front.len() as int, all, k1, part);
    lemma_inner(prompt_text, front.len() + k1, part, head.len() as int, inner);
    front.len() + k1 + head.len()
}

proof fn lemma_output_text()
    ensures
        ".item.json.stdout // \"(no output)\")"@ == ".item.json.stdout"@
            + " // \"(no output)\")"@,
        ".item.json.text // \"(no output)\")"@ == ".item.json.text"@ + " // \"(no output)\")"@,
{
    reveal_strlit(".item.json.stdout // \"(no output)\")");
    reveal_strlit(".item.json.stdout");
    reveal_strlit(".item.json.text // \"(no output)\")");
    reveal_strlit(".item.json.text");
    reveal_strlit(" // \"(no output)\")");
    assert(".item.json.stdout // \"(no output)\")"@ =~= ".item.json.stdout"@
        + " // \"(no output)\")"@);
    assert(".item.json.text // \"(no output)\")"@ =~= ".item.json.text"@
        + " // \"(no output)\")"@);
}

/// Every declared input reaches every instruction.
pub proof fn declared_inputs_reach_every_prompt(answer: JsonView, i: int, d: int) -> (at: int)
    requires
        lowered(answer) is Ok,
        0 <= i < written(answer).len(),
        says(written(answer)[i], "ask"@),
        lowered(answer) matches Ok((graph, _, _)) && 0 <= d < graph.inputs.len(),
    ensures
        lowered(answer) matches Ok((graph, _, _)) && holds(
            graph.nodes[i + 1].config.text_or_empty("prompt"@),
            "((.run.inputs."@ + graph.inputs[d].name,
            at,
        ),
{
    lemma_steps(answer);
    let raw = written(answer);
    lemma_readings(raw, raw.len());
    assert(is_sound(raw, i));
    let steps = parsed_steps(answer)->Ok_0;
    let declared = declared_of(answer);
    let graph = lowered(answer)->Ok_0.0;
    assert(is_reading_of(steps[i], raw[i]));
    assert(graph.nodes[i + 1] == step_node(steps[i], steps, declared));
    lemma_member_reads(graph.nodes[i + 1].config->Object_0, 0);
    let name = declared[d].name;
    let part = input_part(name);
    let head = " + "@ + jq_quoted("\n\n# Input `"@ + name + "`\n"@) + " + "@;
    let inner = "((.run.inputs."@ + name;
    let rest = " // \"(not provided)\") | tostring)"@;
    reveal_strlit(" + ((.run.inputs.");
    reveal_strlit(" + ");
    reveal_strlit("((.run.inputs.");
    assert(" + ((.run.inputs."@ =~= " + "@ + "((.run.inputs."@);
    assert(part =~= head + inner + rest);
    lemma_holds(head, inner, rest);
    let k1 = lemma_input_parts(declared, declared.len(), d);
    let all = input_parts(declared, declared.len());
    let tail = read_parts(steps, steps[i].reads, steps[i].reads.len());
    let front = "="@ + jq_quoted(steps[i].action->prompt);
    let prompt_text = graph.nodes[i + 1].config.text_or_empty("prompt"@);
    assert(prompt_text =~= front + all + tail);
    lemma_holds(front, all, tail);
    lemma_inner(prompt_text, front.len() as int, all, k1, part);
    lemma_inner(prompt_text, front.len() + k1, part, head.len() as int, inner);
    front.len() + k1 + head.len()
}

/// The declarations of a recipe, in order: one more adds an input of that name,
/// description and need, unless the name cannot be used or is taken.
pub proof fn declarations_become_inputs(raw: Seq<JsonView>, more: JsonView)
    ensures
        ({
            let before = declared_inputs(raw, raw.len());
            let after = declared_inputs(raw.push(more), raw.push(more).len());
            let name = sanitized(more.text_or_empty("name"@));
            let taken = exists|k: int| 0 <= k < before.len() && (#[trigger] before[k]).name == name;
            &&& !addressable(name) || taken ==> after == before
            &&& addressable(name) && !taken ==> after == before.push(
                DeclaredView {
                    name,
                    description: more.text_or_empty("description"@),
                    required: more.at("required"@) == JsonView::Bool(true),
                },
            )
        }),
{
    lemma_declared_front(raw, more, raw.len());
}

proof fn lemma_declared_front(raw: Seq<JsonView>, more: JsonView, n: nat)
    requires
        n <= raw.len(),
    ensures
        declared_inputs(raw.push(more), n) == declared_inputs(raw, n),
    decreases n,
{
    if n > 0 {
        lemma_declared_front(raw, more, (n - 1) as nat);
        assert(raw.push(more)[n - 1] == raw[n - 1]);
    }
}

/// A lowered recipe asks for its declared inputs as texts, and brings the values
/// it came with and the reason it gives.
pub proof fn recipes_bring_their_inputs(answer: JsonView, d: int)
    requires
        lowered(answer) is Ok,
    ensures
        lowered(answer) matches Ok((graph, inputs, why)) && {
            let declared = match answer.at("declared"@) {
                JsonView::Array(raw) => declared_inputs(raw, raw.len()),
                _ => Seq::empty(),
            };
            &&& graph.inputs.len() == declared.len()
            &&& 0 <= d < declared.len() ==> graph.inputs[d].name == declared[d].name
                && graph.inputs[d].required == declared[d].required && graph.inputs[d].ty
                == InputType::String && graph.inputs[d].default is None
                && graph.inputs[d].description == Some(declared[d].description)
            &&& answer.at("inputs"@) matches JsonView::Object(given) ==> inputs == given
            &&& !(answer.at("inputs"@) is Object) ==> inputs.len() == 0
            &&& answer.text_at("why"@) matches Some(reason) ==> why == reason
        },
{
    lemma_steps(answer);
}

/// Sanitizing goes character by character: letters and digits stay, letters in
/// lower case, and anything else becomes an underscore.
pub proof fn sanitizing_keeps_letters_and_digits(raw: Seq<char>, i: int)
    requires
        0 <= i < raw.len(),
        is_alphanumeric(raw[0]),
        is_alphanumeric(raw.last()),
    ensures
        sanitized(raw).len() == raw.len(),
        'a' <= raw[i] <= 'z' || '0' <= raw[i] <= '9' ==> sanitized(raw)[i] == raw[i],
        'A' <= raw[i] <= 'Z' ==> sanitized(raw)[i] as int == raw[i] as int + 32,
        !is_alphanumeric(raw[i]) ==> sanitized(raw)[i] == '_',
{
    let mapped = safe_chars(raw);
    lemma_alphanumeric(raw[0]);
    lemma_alphanumeric(raw.last());
    lemma_alphanumeric(raw[i]);
    assert(mapped[0] != '_');
    assert(mapped.last() != '_');
}

/// A letter or a digit.
pub open spec fn is_alphanumeric(c: char) -> bool {
    'a' <= c <= 'z' || '0' <= c <= '9' || 'A' <= c <= 'Z'
}

proof fn lemma_alphanumeric(c: char)
    ensures
        is_alphanumeric(c) <==> safe_char(c) != '_',
        'A' <= c <= 'Z' ==> safe_char(c) as int == c as int + 32,
{
}

/// A lowered recipe goes by the first words of its first instruction, six at most;
/// where it has no instruction, it goes by the ids of its steps.
pub proof fn recipes_go_by_their_first_words(answer: JsonView, i: int, k: int)
    requires
        lowered(answer) is Ok,
        0 <= i <= written(answer).len(),
        forall|m: int| 0 <= m < i ==> !says(#[trigger] written(answer)[m], "ask"@),
        i < written(answer).len() ==> says(written(answer)[i], "ask"@),
    ensures
        lowered(answer) matches Ok((graph, _, _)) && {
            let said = words(trimmed(written(answer)[i].text_or_empty("ask"@)));
            &&& i < written(answer).len() && 0 < said.len() <= 6 && joined_text(
                said,
                " "@,
            ).len() > 0 ==> graph.name == joined_text(said, " "@)
            &&& i < written(answer).len() && said.len() > 6 && joined_text(
                said.take(6),
                " "@,
            ).len() > 0 ==> graph.name == joined_text(said.take(6), " "@)
            &&& i == written(answer).len() && 0 <= k < written(answer).len() ==> occurs_in(
                graph.name,
                goes_by(written(answer)[k]),
            )
        },
{
    lemma_steps(answer);
    let raw = written(answer);
    lemma_readings(raw, raw.len());
    let steps = parsed_steps(answer)->Ok_0;
    assert forall|m: int| 0 <= m < i implies (#[trigger] steps[m]).action is Run by {
        assert(is_sound(raw, m));
        assert(is_reading_of(steps[m], raw[m]));
        assert(!says(raw[m], "ask"@));
    }
    if i < raw.len() {
        assert(is_sound(raw, i));
        assert(is_reading_of(steps[i], raw[i]));
    }
    lemma_first_ask(steps, 0, i);
    if 0 <= k < raw.len() && i == raw.len() {
        assert(is_reading_of(steps[k], raw[k]));
        lemma_parts_occur(step_ids(steps), " → "@, k);
        assert(step_ids(steps)[k] == goes_by(raw[k]));
    }
}

proof fn lemma_first_ask(steps: Seq<StepView>, from: int, i: int)
    requires
        0 <= from <= i <= steps.len(),
        forall|m: int| from <= m < i ==> (#[trigger] steps[m]).action is Run,
        i < steps.len() ==> steps[i].action is Ask,
    ensures
        i < steps.len() ==> first_ask(steps, from) == Some(steps[i].action->prompt),
        i == steps.len() ==> first_ask(steps, from) is None,
    decreases i - from,
{
    if from < i {
        assert(steps[from].action is Run);
        lemma_first_ask(steps, from + 1, i);
    }
}

/// A step that cannot be run is said to be so, by its id, or by its number where it
/// has none; and a read that names no earlier step is told with what it named.
pub proof fn faulty_steps_are_named(reading: Reading, index: nat, step: JsonView, read: Seq<char>)
    ensures
        ({
            let after = read_step(reading, index, step);
            let id = goes_by(step);
            let told = after.problems.last();
            &&& id.len() == 0 ==> after.problems.len() == reading.problems.len() + 1 && occurs_in(
                told,
                decimal(index),
            )
            &&& id.len() > 0 && (id == "start"@ || has_step(reading.steps, id))
                ==> after.problems.len() == reading.problems.len() + 1 && occurs_in(told, id)
            &&& id.len() > 0 && id != "start"@ && !has_step(reading.steps, id) && says(step, "run"@)
                == says(step, "ask"@) ==> after.problems.len() == reading.problems.len() + 1
                && occurs_in(told, id)
        }),
        occurs_in(forward_read(goes_by(step), read), goes_by(step)),
        occurs_in(forward_read(goes_by(step), read), read),
{
    let id = goes_by(step);
    lemma_occurs_last("step "@, decimal(index));
    lemma_occurs_on("step "@ + decimal(index), " has no usable `id`"@, decimal(index));
    lemma_occurs_last("step id `"@, id);
    lemma_occurs_on("step id `"@ + id, "` is taken — ids must be unique"@, id);
    lemma_occurs_last("step `"@, id);
    lemma_occurs_on("step `"@ + id, "` has both `run` and `ask` — split it into two steps"@, id);
    lemma_occurs_on(
        "step `"@ + id,
        "` has neither a `run` script nor an `ask` instruction"@,
        id,
    );
    let front = "step `"@ + id + "` reads `"@;
    lemma_occurs_on("step `"@ + id, "` reads `"@, id);
    lemma_occurs_on(front, read, id);
    lemma_occurs_on(front + read, "`, which is not an EARLIER step id"@, id);
    lemma_occurs_last(front, read);
    lemma_occurs_on(front + read, "`, which is not an EARLIER step id"@, read);
}

/// A recipe that is not lowered is refused with every problem of its steps.
pub proof fn refused_recipes_say_why(answer: JsonView, i: int)
    requires
        written(answer).len() > 0,
        0 <= i < read_steps(written(answer), written(answer).len()).problems.len(),
    ensures
        lowered(answer) matches Err(IntakeErrorView::Invalid(text)) && occurs_in(
            text,
            read_steps(written(answer), written(answer).len()).problems[i],
        ),
{
    lemma_parts_occur(read_steps(written(answer), written(answer).len()).problems, "; "@, i);
}

} // verus!
