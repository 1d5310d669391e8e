//! What holds of every recipe.
use vstd::prelude::*;

use crate::adaptive::intake::recipe::{
    declared_inputs, declared_of, good_reads, has_step, input_of, jq_char, jq_chars, jq_quoted,
    lowered, lowered_graph, parsed_steps, raw_reads, read_steps, safe_char, safe_chars, sanitized,
    start_node, step_edge, step_node, strip_back, strip_front, ActionView, DeclaredView, StepView,
};
use crate::json::{entry, JsonView};
use crate::literals::{is_expression, literal_errors, node_reasons};
use crate::model::graph::{addressable, GraphView, NodeKind, NodeView};
use crate::validate::{
    edge_errors, edges_errors, graph_errors, input_errors, inputs_errors, node_errors, nodes_errors,
    repeats_edge, repeats_id, repeats_name, trigger_ids, EdgeCheck, NodeCheck,
};
use crate::walk::is_kind;

verus! {

/// A character of a sanitized name.
pub open spec fn is_safe(c: char) -> bool {
    'a' <= c <= 'z' || '0' <= c <= '9' || c == '_'
}

proof fn lemma_strip_front(s: Seq<char>)
    ensures
        strip_front(s).len() <= s.len(),
        strip_front(s) == s.skip(s.len() - strip_front(s).len()),
        strip_front(s).len() > 0 ==> strip_front(s)[0] != '_',
    decreases s.len(),
{
    if s.len() > 0 && s[0] == '_' {
        lemma_strip_front(s.drop_first());
        assert(strip_front(s) =~= s.skip(s.len() - strip_front(s).len()));
    } else {
        assert(s =~= s.skip(0));
    }
}

proof fn lemma_strip_back(s: Seq<char>)
    ensures
        strip_back(s).len() <= s.len(),
        strip_back(s) == s.take(strip_back(s).len() as int),
        strip_back(s).len() > 0 ==> strip_back(s).last() != '_',
    decreases s.len(),
{
    if s.len() > 0 && s.last() == '_' {
        lemma_strip_back(s.drop_last());
        assert(strip_back(s) =~= s.take(strip_back(s).len() as int));
    } else {
        assert(s =~= s.take(s.len() as int));
    }
}

proof fn lemma_safe_char(c: char)
    ensures
        is_safe(safe_char(c)),
        is_safe(c) ==> safe_char(c) == c,
{
}

/// A sanitized name holds only lower-case letters, digits and underscores, and
/// neither begins nor ends with an underscore; sanitizing it again changes
/// nothing.
pub proof fn sanitized_names_are_safe(raw: Seq<char>)
    ensures
        forall|i: int| 0 <= i < sanitized(raw).len() ==> is_safe(#[trigger] sanitized(raw)[i]),
        sanitized(raw).len() > 0 ==> sanitized(raw)[0] != '_' && sanitized(raw).last() != '_',
        sanitized(sanitized(raw)) == sanitized(raw),
{
    let mapped = safe_chars(raw);
    let front = strip_front(mapped);
    let id = sanitized(raw);
    lemma_strip_front(mapped);
    lemma_strip_back(front);
    assert forall|i: int| 0 <= i < id.len() implies is_safe(#[trigger] id[i]) by {
        let k = i + (mapped.len() - front.len());
        assert(id[i] == front[i]);
        assert(front[i] == mapped[k]);
        lemma_safe_char(raw[k]);
    }
    if id.len() > 0 {
        assert(id[0] == front[0]);
    }
    assert(safe_chars(id) =~= id) by {
        assert forall|i: int| 0 <= i < id.len() implies safe_chars(id)[i] == id[i] by {
            lemma_safe_char(id[i]);
        }
    }
    assert(strip_front(id) == id);
    assert(strip_back(id) == id);
}

/// What the inside of a jq string literal stands for.
pub open spec fn jq_read(s: Seq<char>) -> Seq<char>
    decreases s.len(),
{
    if s.len() == 0 {
        Seq::empty()
    } else if s[0] == '\\' && s.len() > 1 {
        let c = s[1];
        let plain = if c == 'n' {
            '\n'
        } else if c == 'r' {
            '\r'
        } else if c == 't' {
            '\t'
        } else {
            c
        };
        seq![plain] + jq_read(s.skip(2))
    } else {
        seq![s[0]] + jq_read(s.skip(1))
    }
}

proof fn lemma_jq_chars_front(s: Seq<char>)
    requires
        s.len() > 0,
    ensures
        jq_chars(s) == jq_char(s[0]) + jq_chars(s.drop_first()),
    decreases s.len(),
{
    if s.len() == 1 {
        assert(s.drop_last() =~= Seq::empty());
        assert(s.drop_first() =~= Seq::empty());
        assert(jq_chars(s) =~= jq_char(s[0]) + jq_chars(s.drop_first()));
    } else {
        lemma_jq_chars_front(s.drop_last());
        assert(s.drop_last().drop_first() =~= s.drop_first().drop_last());
        assert(jq_chars(s) =~= jq_char(s[0]) + jq_chars(s.drop_first()));
    }
}

/// A quoted text reads back as itself, and quoting keeps it on one line, without
/// tabs.
pub proof fn jq_literals_read_back(text: Seq<char>)
    ensures
        jq_read(jq_chars(text)) == text,
        jq_quoted(text) == seq!['"'] + jq_chars(text) + seq!['"'],
        forall|i: int|
            0 <= i < jq_chars(text).len() ==> #[trigger] jq_chars(text)[i] != '\n' && jq_chars(
                text,
            )[i] != '\r' && jq_chars(text)[i] != '\t',
    decreases text.len(),
{
    if text.len() > 0 {
        let rest = text.drop_first();
        let head = jq_char(text[0]);
        jq_literals_read_back(rest);
        lemma_jq_chars_front(text);
        let all = jq_chars(text);
        assert(all == head + jq_chars(rest));
        assert(head.len() == 1 || head.len() == 2);
        if head.len() == 2 {
            assert(all.skip(2) =~= jq_chars(rest));
        } else {
            assert(all[0] == text[0]);
            assert(all.skip(1) =~= jq_chars(rest));
        }
        assert(jq_read(all) =~= text);
    }
}

/// No two steps share an id, none is unnamed, none is called `start`, and no
/// worker is an expression.
pub open spec fn proper(steps: Seq<StepView>) -> bool {
    &&& forall|i: int|
        0 <= i < steps.len() ==> ((#[trigger] steps[i]).action matches ActionView::Ask {
            worker: Some(worker),
            ..
        } ==> !is_expression(worker))
    &&& forall|i: int|
        0 <= i < steps.len() ==> (#[trigger] steps[i]).id.len() > 0 && steps[i].id != "start"@
    &&& forall|i: int, k: int|
        0 <= k < i < steps.len() ==> (#[trigger] steps[k]).id != (#[trigger] steps[i]).id
}

proof fn lemma_steps_proper(raw: Seq<JsonView>, n: nat)
    requires
        n <= raw.len(),
    ensures
        proper(read_steps(raw, n).steps),
    decreases n,
{
    if n > 0 {
        lemma_steps_proper(raw, (n - 1) as nat);
        let before = read_steps(raw, (n - 1) as nat);
        let after = read_steps(raw, n);
        if after.steps.len() > before.steps.len() {
            assert forall|i: int, k: int| 0 <= k < i < after.steps.len() implies (
            #[trigger] after.steps[k]).id != (#[trigger] after.steps[i]).id by {
                if i == before.steps.len() {
                    assert(before.steps[k] == after.steps[k]);
                }
            }
        }
    }
}

/// Every step only reads steps that come before it.
pub proof fn steps_read_earlier_steps(answer: JsonView, i: int, k: int)
    requires
        parsed_steps(answer) matches Ok(steps) && 0 <= i < steps.len() && 0 <= k
            < steps[i].reads.len(),
    ensures
        parsed_steps(answer) matches Ok(steps) && has_step(steps.take(i), steps[i].reads[k]),
{
    let raw = answer.at("steps"@).as_array()->0;
    lemma_reads_back(raw, raw.len(), i, k);
}

proof fn lemma_good_reads(steps: Seq<StepView>, raw: Seq<JsonView>, n: nat, k: int)
    requires
        n <= raw.len(),
        0 <= k < good_reads(steps, raw, n).len(),
    ensures
        has_step(steps, good_reads(steps, raw, n)[k]),
    decreases n,
{
    if n > 0 {
        let rest = good_reads(steps, raw, (n - 1) as nat);
        if k < rest.len() {
            lemma_good_reads(steps, raw, (n - 1) as nat, k);
        }
    }
}

proof fn lemma_reads_back(raw: Seq<JsonView>, n: nat, i: int, k: int)
    requires
        n <= raw.len(),
        0 <= i < read_steps(raw, n).steps.len(),
        0 <= k < read_steps(raw, n).steps[i].reads.len(),
    ensures
        has_step(read_steps(raw, n).steps.take(i), read_steps(raw, n).steps[i].reads[k]),
    decreases n,
{
    if n > 0 {
        let before = read_steps(raw, (n - 1) as nat);
        let after = read_steps(raw, n);
        if i < before.steps.len() {
            lemma_reads_back(raw, (n - 1) as nat, i, k);
            assert(before.steps.take(i) =~= after.steps.take(i));
        } else {
            let reads = raw_reads(raw[n - 1]);
            lemma_good_reads(before.steps, reads, reads.len(), k);
            assert(after.steps.take(i) =~= before.steps);
        }
    }
}

/// The keys a lowered node's configuration can hold.
spec fn lowered_key(key: Seq<char>) -> bool {
    key == "trigger_kind"@ || key == "script"@ || key == "prompt"@ || key == "agent_ref"@
}

proof fn lemma_config(node: NodeView, steps: Seq<StepView>, declared: Seq<DeclaredView>, i: int)
    requires
        (i == 0 && node == start_node()) || (0 < i <= steps.len() && node == step_node(
            steps[i - 1],
            steps,
            declared,
        )),
    ensures
        forall|key: Seq<char>| !lowered_key(key) ==> #[trigger] node.config.get(key) is None,
{
    assert forall|key: Seq<char>| !lowered_key(key) implies #[trigger] node.config.get(
        key,
    ) is None by {
        let entries = node.config->Object_0;
        reveal_with_fuel(entry, 3);
        if entries.len() == 1 {
            assert(entries.drop_first() =~= Seq::empty());
        } else {
            assert(entries.len() == 2);
            assert(entries.drop_first()[0] == entries[1]);
            assert(entries.drop_first().drop_first() =~= Seq::empty());
        }
    }
}

proof fn lemma_literal(node: NodeView, steps: Seq<StepView>, declared: Seq<DeclaredView>, i: int)
    requires
        proper(steps),
        (i == 0 && node == start_node()) || (0 < i <= steps.len() && node == step_node(
            steps[i - 1],
            steps,
            declared,
        )),
    ensures
        literal_errors(node) =~= Seq::empty(),
{
    if node.kind == NodeKind::Agent {
        lemma_config(node, steps, declared, i);
        lemma_other_keys();
        assert(node.config.get("tools"@) is None);
        assert(node.config.get("context"@) is None);
        let entries = node.config->Object_0;
        reveal_strlit("prompt");
        reveal_strlit("agent_ref");
        assert("prompt"@.len() == 6 && "agent_ref"@.len() == 9);
        reveal_with_fuel(entry, 3);
        if entries.len() == 1 {
            assert(entries.drop_first() =~= Seq::empty());
            assert(node.config.get("agent_ref"@) is None);
        } else {
            assert(entries.drop_first()[0] == entries[1]);
            assert(node.config.get("agent_ref"@) == Some(entries[1].1));
        }
        assert(node_reasons(node) =~= Seq::empty());
    }
}

proof fn lemma_other_keys()
    ensures
        !lowered_key("on_error"@),
        !lowered_key("execution"@),
        !lowered_key("concurrency"@),
        !lowered_key("on_item_error"@),
        !lowered_key("tools"@),
        !lowered_key("context"@),
{
    reveal_strlit("trigger_kind");
    reveal_strlit("script");
    reveal_strlit("prompt");
    reveal_strlit("agent_ref");
    reveal_strlit("on_error");
    reveal_strlit("execution");
    reveal_strlit("concurrency");
    reveal_strlit("on_item_error");
    reveal_strlit("tools");
    reveal_strlit("context");
    assert("tools"@.len() == 5 && "context"@.len() == 7);
    assert("on_error"@.len() == 8 && "execution"@.len() == 9 && "concurrency"@.len() == 11
        && "on_item_error"@.len() == 13);
    assert("trigger_kind"@.len() == 12 && "script"@.len() == 6 && "prompt"@.len() == 6
        && "agent_ref"@.len() == 9);
    assert("execution"@[0] == 'e' && "agent_ref"@[0] == 'a');
}

proof fn lemma_no_node_problems(
    check: NodeCheck,
    steps: Seq<StepView>,
    declared: Seq<DeclaredView>,
    n: nat,
)
    requires
        proper(steps),
        n <= steps.len() + 1,
    ensures
        nodes_errors(check, lowered_graph(steps, declared), n) =~= Seq::empty(),
    decreases n,
{
    let g = lowered_graph(steps, declared);
    if n > 0 {
        lemma_no_node_problems(check, steps, declared, (n - 1) as nat);
        let i = n - 1;
        let node = g.nodes[i];
        if i > 0 {
            assert(node == step_node(steps[i - 1], steps, declared));
        } else {
            assert(node == start_node());
        }
        lemma_config(node, steps, declared, i);
        lemma_other_keys();
        assert(node.config.get("on_error"@) is None);
        assert(node.config.get("execution"@) is None);
        assert(node.config.get("concurrency"@) is None);
        assert(node.config.get("on_item_error"@) is None);
        lemma_literal(node, steps, declared, i);
        assert(!repeats_id(g, i)) by {
            assert forall|k: int| 0 <= k < i implies (#[trigger] g.nodes[k]).id != g.nodes[i].id by {
                assert(g.nodes[i].id == steps[i - 1].id);
                if k > 0 {
                    assert(g.nodes[k].id == steps[k - 1].id);
                }
            }
        }
        assert(node_errors(check, g, i) =~= Seq::empty());
    }
}

proof fn lemma_one_trigger_id(
    steps: Seq<StepView>,
    declared: Seq<DeclaredView>,
    n: nat,
)
    requires
        0 < n <= steps.len() + 1,
    ensures
        trigger_ids(lowered_graph(steps, declared), n).len() == 1,
    decreases n,
{
    let g = lowered_graph(steps, declared);
    if n == 1 {
        assert(g.nodes[0] == start_node());
        assert(trigger_ids(g, 0).len() == 0);
    } else {
        lemma_one_trigger_id(steps, declared, (n - 1) as nat);
        assert(g.nodes[n - 1] == step_node(steps[n - 2], steps, declared));
    }
}

proof fn lemma_no_edge_problems(
    check: EdgeCheck,
    steps: Seq<StepView>,
    declared: Seq<DeclaredView>,
    n: nat,
)
    requires
        proper(steps),
        n <= steps.len(),
    ensures
        edges_errors(check, lowered_graph(steps, declared), n) =~= Seq::empty(),
    decreases n,
{
    let g = lowered_graph(steps, declared);
    if n > 0 {
        lemma_no_edge_problems(check, steps, declared, (n - 1) as nat);
        let i = n - 1;
        let edge = g.edges[i];
        assert(edge == step_edge(steps, i));
        assert(g.nodes[i + 1].id == edge.to_node);
        assert(g.nodes[i].id == edge.from_node);
        assert(g.has_node(edge.from_node));
        assert(g.has_node(edge.to_node));
        assert(!repeats_edge(g, i)) by {
            assert forall|k: int| 0 <= k < i implies #[trigger] g.edges[k] != g.edges[i] by {
                assert(g.edges[k].to_node == steps[k].id);
            }
        }
        assert(!is_kind(g, NodeKind::Condition, edge.from_node) && !is_kind(
            g,
            NodeKind::Void,
            edge.from_node,
        )) by {
            assert forall|k: int| 0 <= k < g.nodes.len() implies (#[trigger] g.nodes[k]).kind
                != NodeKind::Condition && g.nodes[k].kind != NodeKind::Void by {
                if k > 0 {
                    assert(g.nodes[k] == step_node(steps[k - 1], steps, declared));
                }
            }
        }
        assert(edge_errors(check, g, i) =~= Seq::empty());
    }
}

/// The only thing that can be wrong with a lowered graph is what its recipe
/// declared as inputs.
proof fn lemma_lowered_errors(steps: Seq<StepView>, declared: Seq<DeclaredView>)
    requires
        proper(steps),
    ensures
        graph_errors(lowered_graph(steps, declared)) == inputs_errors(
            lowered_graph(steps, declared),
            declared.len(),
        ),
{
    let g = lowered_graph(steps, declared);
    lemma_no_node_problems(NodeCheck::UniqueId, steps, declared, g.nodes.len());
    lemma_no_node_problems(NodeCheck::OnError, steps, declared, g.nodes.len());
    lemma_no_node_problems(NodeCheck::SubWorkflow, steps, declared, g.nodes.len());
    lemma_no_node_problems(NodeCheck::FanOut, steps, declared, g.nodes.len());
    lemma_no_node_problems(NodeCheck::Memory, steps, declared, g.nodes.len());
    lemma_no_node_problems(NodeCheck::Dedup, steps, declared, g.nodes.len());
    lemma_no_node_problems(NodeCheck::Assignees, steps, declared, g.nodes.len());
    lemma_no_node_problems(NodeCheck::Lanes, steps, declared, g.nodes.len());
    lemma_no_node_problems(NodeCheck::Literals, steps, declared, g.nodes.len());
    lemma_no_edge_problems(EdgeCheck::VoidSink, steps, declared, g.edges.len());
    lemma_no_edge_problems(EdgeCheck::Integrity, steps, declared, g.edges.len());
    lemma_no_edge_problems(EdgeCheck::ConditionRouting, steps, declared, g.edges.len());
    lemma_one_trigger_id(steps, declared, g.nodes.len());
    assert(graph_errors(g) =~= inputs_errors(g, declared.len()));
}

/// The declared inputs can each be addressed, and no two share a name.
pub open spec fn usable_inputs(declared: Seq<DeclaredView>) -> bool {
    &&& forall|i: int| 0 <= i < declared.len() ==> addressable((#[trigger] declared[i]).name)
    &&& forall|i: int, k: int|
        0 <= k < i < declared.len() ==> (#[trigger] declared[k]).name != (
        #[trigger] declared[i]).name
}

proof fn lemma_inputs_fine(g: GraphView, declared: Seq<DeclaredView>, n: nat)
    requires
        usable_inputs(declared),
        n <= declared.len(),
        g.inputs == Seq::new(declared.len(), |i: int| input_of(declared[i])),
    ensures
        inputs_errors(g, n) =~= Seq::empty(),
    decreases n,
{
    if n > 0 {
        lemma_inputs_fine(g, declared, (n - 1) as nat);
        let i = n - 1;
        assert(g.inputs[i].name == declared[i].name);
        assert(!repeats_name(g, i)) by {
            assert forall|k: int| 0 <= k < i implies (#[trigger] g.inputs[k]).name
                != g.inputs[i].name by {
                assert(g.inputs[k].name == declared[k].name);
            }
        }
        assert(input_errors(g, i) =~= Seq::empty());
    }
}

proof fn lemma_declared_usable(raw: Seq<JsonView>, n: nat)
    requires
        n <= raw.len(),
    ensures
        usable_inputs(declared_inputs(raw, n)),
    decreases n,
{
    if n > 0 {
        lemma_declared_usable(raw, (n - 1) as nat);
        let before = declared_inputs(raw, (n - 1) as nat);
        let after = declared_inputs(raw, n);
        if after.len() > before.len() {
            assert forall|i: int, k: int| 0 <= k < i < after.len() implies (
            #[trigger] after[k]).name != (#[trigger] after[i]).name by {
                if i == before.len() {
                    assert(before[k] == after[k]);
                }
            }
        }
    }
}

/// A lowered recipe always validates.
pub proof fn lowered_recipes_validate(answer: JsonView)
    requires
        lowered(answer) is Ok,
    ensures
        lowered(answer) matches Ok((graph, inputs, why)) && graph_errors(graph).len() == 0,
{
    let raw = answer.at("steps"@).as_array()->0;
    let steps = read_steps(raw, raw.len()).steps;
    let declared = declared_of(answer);
    let g = lowered_graph(steps, declared);
    lemma_steps_proper(raw, raw.len());
    lemma_lowered_errors(steps, declared);
    if let Some(wanted) = answer.at("declared"@).as_array() {
        lemma_declared_usable(wanted, wanted.len());
    }
    lemma_inputs_fine(g, declared, declared.len());
}

} // verus!
