//! What holds of every stand-in: what it shows of a call, what it answers, and what
//! it keeps.
use vstd::prelude::*;

use crate::caps::mock_schema_aware::{
    declared_schema, empty_of, schema_placeholder, type_placeholder,
};
use crate::json::{entry, lemma_member_reads, JsonView, NumberView};
use crate::json_text::json_text;
use crate::model::graph::GraphView;
use crate::testkit::double::{
    agent_echo, code_echo, code_request, completion_echo, flavour_echo, flavour_request,
    forget_request, http_echo, load_request, people_echo, people_request, recall_echo,
    recall_request, remember_request, shell_echo, shell_outcome, shell_request, store_request,
    tool_echo, ShellRequest,
};
use crate::testkit::glob::globs;
use crate::testkit::mocks::{
    asked, first_rule, graph_under, logged, new_rule, wanted_calls, with_graph, CallView,
    MatcherView, MockView, Respond, RuleView,
};
use crate::testkit::sample::{declared, sample_of, undeclared};

verus! {

proof fn lemma_calls_are_echoed()
    ensures
        "completion"@ != "connection"@,
        "completion"@ != "tool"@,
        "completion"@ != "args"@,
        "completion"@ != "status"@,
        "completion"@ != "request"@,
        "completion"@ != "agent"@,
        "connection"@ != "tool"@,
        "connection"@ != "args"@,
        "connection"@ != "status"@,
        "connection"@ != "request"@,
        "connection"@ != "agent"@,
        "tool"@ != "args"@,
        "tool"@ != "status"@,
        "tool"@ != "request"@,
        "tool"@ != "agent"@,
        "args"@ != "status"@,
        "args"@ != "request"@,
        "args"@ != "agent"@,
        "status"@ != "request"@,
        "status"@ != "agent"@,
        "request"@ != "agent"@,
{
    reveal_strlit("completion");
    reveal_strlit("connection");
    reveal_strlit("tool");
    reveal_strlit("args");
    reveal_strlit("status");
    reveal_strlit("request");
    reveal_strlit("agent");
    assert("completion"@.len() == 10 && "connection"@.len() == 10 && "tool"@.len() == 4 && "args"@.len() == 4 && "status"@.len() == 6 && "request"@.len() == 7 && "agent"@.len() == 5);
    assert("completion"@[2] == 'm');
    assert("connection"@[2] == 'n');
    assert("tool"@[0] == 't');
    assert("args"@[0] == 'a');
}

/// A stand-in that was taught nothing answers with what it was asked, and with the
/// connection it was asked over.
pub proof fn calls_are_echoed(
    request: JsonView,
    slug: Seq<char>,
    args: JsonView,
    agent: Seq<char>,
    conn: Option<Seq<char>>,
)
    ensures
        completion_echo(request, conn).get("completion"@) == Some(request),
        conn matches Some(text) ==> completion_echo(request, conn).get("connection"@) == Some(
            JsonView::String(text),
        ),
        conn is None ==> completion_echo(request, conn).get("connection"@) == Some(JsonView::Null),
        tool_echo(slug, args, conn).get("tool"@) == Some(JsonView::String(slug)),
        tool_echo(slug, args, conn).get("args"@) == Some(args),
        conn matches Some(text) ==> tool_echo(slug, args, conn).get("connection"@) == Some(
            JsonView::String(text),
        ),
        conn is None ==> tool_echo(slug, args, conn).get("connection"@) == Some(JsonView::Null),
        http_echo(request, conn).get("status"@) == Some(JsonView::Number(NumberView::PosInt(200))),
        http_echo(request, conn).get("request"@) == Some(request),
        conn matches Some(text) ==> http_echo(request, conn).get("connection"@) == Some(
            JsonView::String(text),
        ),
        conn is None ==> http_echo(request, conn).get("connection"@) == Some(JsonView::Null),
        agent_echo(agent, request, conn).get("agent"@) == Some(JsonView::String(agent)),
        agent_echo(agent, request, conn).get("request"@) == Some(request),
        conn matches Some(text) ==> agent_echo(agent, request, conn).get("connection"@) == Some(
            JsonView::String(text),
        ),
        conn is None ==> agent_echo(agent, request, conn).get("connection"@) == Some(JsonView::Null),
{
    lemma_calls_are_echoed();
    lemma_member_reads(completion_echo(request, conn)->Object_0, 0);
    lemma_member_reads(completion_echo(request, conn)->Object_0, 1);
    lemma_member_reads(tool_echo(slug, args, conn)->Object_0, 0);
    lemma_member_reads(tool_echo(slug, args, conn)->Object_0, 1);
    lemma_member_reads(tool_echo(slug, args, conn)->Object_0, 2);
    lemma_member_reads(http_echo(request, conn)->Object_0, 0);
    lemma_member_reads(http_echo(request, conn)->Object_0, 1);
    lemma_member_reads(http_echo(request, conn)->Object_0, 2);
    lemma_member_reads(agent_echo(agent, request, conn)->Object_0, 0);
    lemma_member_reads(agent_echo(agent, request, conn)->Object_0, 1);
    lemma_member_reads(agent_echo(agent, request, conn)->Object_0, 2);
}

proof fn lemma_code_runs_are_shown()
    ensures
        "language"@ != "source"@,
        "language"@ != "input"@,
        "language"@ != "result"@,
        "source"@ != "input"@,
        "source"@ != "result"@,
        "input"@ != "result"@,
{
    reveal_strlit("language");
    reveal_strlit("source");
    reveal_strlit("input");
    reveal_strlit("result");
    assert("language"@.len() == 8 && "source"@.len() == 6 && "input"@.len() == 5 && "result"@.len() == 6);
    assert("source"@[0] == 's');
    assert("result"@[0] == 'r');
}

/// A code run is seen with its language, its source and its input, and echoes the
/// input.
pub proof fn code_runs_are_shown(
    language: Seq<char>,
    source: Seq<char>,
    input: JsonView,
)
    ensures
        code_request(language, source, input).get("language"@) == Some(JsonView::String(language)),
        code_request(language, source, input).get("source"@) == Some(JsonView::String(source)),
        code_request(language, source, input).get("input"@) == Some(input),
        code_echo(input).get("result"@) == Some(input),
{
    lemma_code_runs_are_shown();
    lemma_member_reads(code_request(language, source, input)->Object_0, 0);
    lemma_member_reads(code_request(language, source, input)->Object_0, 1);
    lemma_member_reads(code_request(language, source, input)->Object_0, 2);
    lemma_member_reads(code_echo(input)->Object_0, 0);
}

proof fn lemma_scripts_are_shown()
    ensures
        "interpreter"@ != "script"@,
        "interpreter"@ != "cwd"@,
        "interpreter"@ != "env"@,
        "interpreter"@ != "input"@,
        "interpreter"@ != "exit_code"@,
        "interpreter"@ != "stdout"@,
        "interpreter"@ != "stderr"@,
        "script"@ != "cwd"@,
        "script"@ != "env"@,
        "script"@ != "input"@,
        "script"@ != "exit_code"@,
        "script"@ != "stdout"@,
        "script"@ != "stderr"@,
        "cwd"@ != "env"@,
        "cwd"@ != "input"@,
        "cwd"@ != "exit_code"@,
        "cwd"@ != "stdout"@,
        "cwd"@ != "stderr"@,
        "env"@ != "input"@,
        "env"@ != "exit_code"@,
        "env"@ != "stdout"@,
        "env"@ != "stderr"@,
        "input"@ != "exit_code"@,
        "input"@ != "stdout"@,
        "input"@ != "stderr"@,
        "exit_code"@ != "stdout"@,
        "exit_code"@ != "stderr"@,
        "stdout"@ != "stderr"@,
{
    reveal_strlit("interpreter");
    reveal_strlit("script");
    reveal_strlit("cwd");
    reveal_strlit("env");
    reveal_strlit("input");
    reveal_strlit("exit_code");
    reveal_strlit("stdout");
    reveal_strlit("stderr");
    assert("interpreter"@.len() == 11 && "script"@.len() == 6 && "cwd"@.len() == 3 && "env"@.len() == 3 && "input"@.len() == 5 && "exit_code"@.len() == 9 && "stdout"@.len() == 6 && "stderr"@.len() == 6);
    assert("script"@[1] == 'c');
    assert("stdout"@[1] == 't');
    assert("stderr"@[1] == 't');
    assert("cwd"@[0] == 'c');
    assert("env"@[0] == 'e');
    assert("stdout"@[3] == 'o');
    assert("stderr"@[3] == 'e');
}

/// A script is seen with all of its request, and echoes itself, as if it had gone
/// well.
pub proof fn scripts_are_shown(
    request: ShellRequest,
    script: Seq<char>,
)
    ensures
        shell_request(request).get("interpreter"@) == Some(JsonView::String(request.interpreter@)),
        shell_request(request).get("script"@) == Some(JsonView::String(request.script@)),
        request.cwd matches Some(text) ==> shell_request(request).get("cwd"@) == Some(
            JsonView::String(text@),
        ),
        request.cwd is None ==> shell_request(request).get("cwd"@) == Some(JsonView::Null),
        shell_request(request).get("env"@) == Some(request.env@),
        shell_request(request).get("input"@) == Some(request.input@),
        shell_echo(script).get("exit_code"@) == Some(JsonView::Number(NumberView::PosInt(0))),
        shell_echo(script).get("stdout"@) == Some(JsonView::String(script)),
        shell_echo(script).get("stderr"@) == Some(JsonView::String(""@)),
{
    lemma_scripts_are_shown();
    lemma_member_reads(shell_request(request)->Object_0, 0);
    lemma_member_reads(shell_request(request)->Object_0, 1);
    lemma_member_reads(shell_request(request)->Object_0, 2);
    lemma_member_reads(shell_request(request)->Object_0, 3);
    lemma_member_reads(shell_request(request)->Object_0, 4);
    lemma_member_reads(shell_echo(script)->Object_0, 0);
    lemma_member_reads(shell_echo(script)->Object_0, 1);
    lemma_member_reads(shell_echo(script)->Object_0, 2);
}

proof fn lemma_memory_calls_are_shown()
    ensures
        "scope"@ != "query"@,
        "scope"@ != "opts"@,
        "scope"@ != "results"@,
        "scope"@ != "key"@,
        "scope"@ != "value"@,
        "scope"@ != "slug"@,
        "scope"@ != "traits"@,
        "scope"@ != "people"@,
        "query"@ != "opts"@,
        "query"@ != "results"@,
        "query"@ != "key"@,
        "query"@ != "value"@,
        "query"@ != "slug"@,
        "query"@ != "traits"@,
        "query"@ != "people"@,
        "opts"@ != "results"@,
        "opts"@ != "key"@,
        "opts"@ != "value"@,
        "opts"@ != "slug"@,
        "opts"@ != "traits"@,
        "opts"@ != "people"@,
        "results"@ != "key"@,
        "results"@ != "value"@,
        "results"@ != "slug"@,
        "results"@ != "traits"@,
        "results"@ != "people"@,
        "key"@ != "value"@,
        "key"@ != "slug"@,
        "key"@ != "traits"@,
        "key"@ != "people"@,
        "value"@ != "slug"@,
        "value"@ != "traits"@,
        "value"@ != "people"@,
        "slug"@ != "traits"@,
        "slug"@ != "people"@,
        "traits"@ != "people"@,
{
    reveal_strlit("scope");
    reveal_strlit("query");
    reveal_strlit("opts");
    reveal_strlit("results");
    reveal_strlit("key");
    reveal_strlit("value");
    reveal_strlit("slug");
    reveal_strlit("traits");
    reveal_strlit("people");
    assert("scope"@.len() == 5 && "query"@.len() == 5 && "opts"@.len() == 4 && "results"@.len() == 7 && "key"@.len() == 3 && "value"@.len() == 5 && "slug"@.len() == 4 && "traits"@.len() == 6 && "people"@.len() == 6);
    assert("scope"@[0] == 's');
    assert("query"@[0] == 'q');
    assert("value"@[0] == 'v');
    assert("opts"@[0] == 'o');
    assert("slug"@[0] == 's');
    assert("traits"@[0] == 't');
    assert("people"@[0] == 'p');
}

/// A call of the memory is seen with all it asks, and recalls nothing and nobody
/// where nothing was taught.
pub proof fn memory_calls_are_shown(
    scope: Seq<char>,
    query: Seq<char>,
    opts: JsonView,
    key: Seq<char>,
    value: JsonView,
    slug: Seq<char>,
    who: Option<Seq<char>>,
)
    ensures
        recall_request(scope, query, opts).get("scope"@) == Some(JsonView::String(scope)),
        recall_request(scope, query, opts).get("query"@) == Some(JsonView::String(query)),
        recall_request(scope, query, opts).get("opts"@) == Some(opts),
        recall_echo().get("results"@) == Some(JsonView::Array(Seq::empty())),
        remember_request(scope, key, value).get("scope"@) == Some(JsonView::String(scope)),
        remember_request(scope, key, value).get("key"@) == Some(JsonView::String(key)),
        remember_request(scope, key, value).get("value"@) == Some(value),
        forget_request(scope, key).get("scope"@) == Some(JsonView::String(scope)),
        forget_request(scope, key).get("key"@) == Some(JsonView::String(key)),
        flavour_request(slug).get("slug"@) == Some(JsonView::String(slug)),
        flavour_echo().get("traits"@) == Some(JsonView::Object(Seq::empty())),
        who matches Some(text) ==> people_request(who).get("query"@) == Some(
            JsonView::String(text),
        ),
        who is None ==> people_request(who).get("query"@) == Some(JsonView::Null),
        people_echo().get("people"@) == Some(JsonView::Array(Seq::empty())),
        load_request(key).get("key"@) == Some(JsonView::String(key)),
        store_request(key, value).get("key"@) == Some(JsonView::String(key)),
        store_request(key, value).get("value"@) == Some(value),
{
    lemma_memory_calls_are_shown();
    lemma_member_reads(recall_request(scope, query, opts)->Object_0, 0);
    lemma_member_reads(recall_request(scope, query, opts)->Object_0, 1);
    lemma_member_reads(recall_request(scope, query, opts)->Object_0, 2);
    lemma_member_reads(recall_echo()->Object_0, 0);
    lemma_member_reads(remember_request(scope, key, value)->Object_0, 0);
    lemma_member_reads(remember_request(scope, key, value)->Object_0, 1);
    lemma_member_reads(remember_request(scope, key, value)->Object_0, 2);
    lemma_member_reads(forget_request(scope, key)->Object_0, 0);
    lemma_member_reads(forget_request(scope, key)->Object_0, 1);
    lemma_member_reads(flavour_request(slug)->Object_0, 0);
    lemma_member_reads(flavour_echo()->Object_0, 0);
    lemma_member_reads(people_request(who)->Object_0, 0);
    lemma_member_reads(people_echo()->Object_0, 0);
    lemma_member_reads(load_request(key)->Object_0, 0);
    lemma_member_reads(store_request(key, value)->Object_0, 0);
    lemma_member_reads(store_request(key, value)->Object_0, 1);
}

/// A script's outcome is read as it is told: its exit code where that fits, what it
/// printed and what it complained of; and a value that says nothing printed is
/// itself what was printed.
pub proof fn script_outcomes_are_read_as_told(value: JsonView, n: u64, m: i64, text: Seq<char>)
    ensures
        value.get("exit_code"@) == Some(JsonView::Number(NumberView::PosInt(n))) && n <= i32::MAX
            ==> shell_outcome(value).exit_code == n,
        value.get("exit_code"@) == Some(JsonView::Number(NumberView::NegInt(m))) && i32::MIN <= m
            <= i32::MAX ==> shell_outcome(value).exit_code == m,
        value.get("exit_code"@) is None ==> shell_outcome(value).exit_code == 0,
        value.get("stdout"@) == Some(JsonView::String(text)) ==> shell_outcome(value).stdout == text,
        value.get("stdout"@) is None ==> shell_outcome(value).stdout == json_text(value),
        value.get("stderr"@) == Some(JsonView::String(text)) ==> shell_outcome(value).stderr == text,
        value.get("stderr"@) is None ==> shell_outcome(value).stderr.len() == 0,
{
}

proof fn lemma_types()
    ensures
        "string"@ != "number"@,
        "string"@ != "integer"@,
        "string"@ != "boolean"@,
        "string"@ != "object"@,
        "string"@ != "array"@,
        "string"@ != "null"@,
        "number"@ != "integer"@,
        "number"@ != "boolean"@,
        "number"@ != "object"@,
        "number"@ != "array"@,
        "number"@ != "null"@,
        "integer"@ != "boolean"@,
        "integer"@ != "object"@,
        "integer"@ != "array"@,
        "integer"@ != "null"@,
        "boolean"@ != "object"@,
        "boolean"@ != "array"@,
        "boolean"@ != "null"@,
        "object"@ != "array"@,
        "object"@ != "null"@,
        "array"@ != "null"@,
{
    reveal_strlit("string");
    reveal_strlit("number");
    reveal_strlit("integer");
    reveal_strlit("boolean");
    reveal_strlit("object");
    reveal_strlit("array");
    reveal_strlit("null");
    assert("string"@.len() == 6 && "number"@.len() == 6 && "integer"@.len() == 7 && "boolean"@.len() == 7 && "object"@.len() == 6 && "array"@.len() == 5 && "null"@.len() == 4);
    assert("string"@[0] == 's');
    assert("number"@[0] == 'n');
    assert("object"@[0] == 'o');
    assert("integer"@[0] == 'i');
    assert("boolean"@[0] == 'b');
}

/// The empty value of a type is empty, and of that type.
pub proof fn empty_values_are_empty()
    ensures
        empty_of("string"@) == JsonView::String(Seq::empty()),
        empty_of("number"@) == JsonView::Number(NumberView::PosInt(0)),
        empty_of("integer"@) == JsonView::Number(NumberView::PosInt(0)),
        empty_of("boolean"@) == JsonView::Bool(false),
        empty_of("object"@) == JsonView::Object(Seq::empty()),
        empty_of("array"@) == JsonView::Array(Seq::empty()),
        empty_of("null"@) == JsonView::Null,
{
    lemma_types();
}

/// A placeholder is the first value that is allowed, and the empty value of the
/// type where none is listed.
pub proof fn placeholders_take_the_first_allowed_value(
    schema: JsonView,
    values: Seq<JsonView>,
    name: Seq<char>,
)
    ensures
        schema.get("enum"@) == Some(JsonView::Array(values)) && values.len() > 0
            ==> type_placeholder(schema) == values[0],
        schema.get("enum"@) is None && schema.get("type"@) == Some(JsonView::String(name))
            ==> type_placeholder(schema) == empty_of(name),
        schema.get("enum"@) is None && schema.get("type"@) is None ==> type_placeholder(schema)
            == JsonView::Null,
{
}

/// A schema's placeholder has under each property what stands for that property.
pub proof fn placeholders_fill_every_property(
    schema: JsonView,
    props: Seq<(Seq<char>, JsonView)>,
    i: int,
)
    requires
        schema.get("properties"@) == Some(JsonView::Object(props)),
        0 <= i < props.len(),
        forall|a: int, b: int|
            0 <= a < b < props.len() ==> (#[trigger] props[a]).0 != (#[trigger] props[b]).0,
    ensures
        schema_placeholder(schema).get(props[i].0) == Some(type_placeholder(props[i].1)),
{
    let entries = schema_placeholder(schema)->Object_0;
    assert(entries[i].0 == props[i].0);
    assert forall|k: int| 0 <= k < i implies (#[trigger] entries[k]).0 != entries[i].0 by {
        assert(props[k].0 != props[i].0);
    }
    lemma_member_reads(entries, i);
}

/// A request declares a schema where its output parser has one that is not `null`.
pub proof fn schemas_are_declared_by_the_parser(
    request: JsonView,
    parser: JsonView,
    schema: JsonView,
)
    ensures
        request.get("output_parser"@) == Some(parser) && parser.get("schema"@) == Some(schema)
            && !(schema is Null) ==> declared_schema(request) == Some(schema),
        request.get("output_parser"@) == Some(parser) && parser.get("schema"@) == Some(
            JsonView::Null,
        ) ==> declared_schema(request) is None,
        request.get("output_parser"@) == Some(parser) && parser.get("schema"@) is None
            ==> declared_schema(request) is None,
        request.get("output_parser"@) is None ==> declared_schema(request) is None,
{
}

proof fn lemma_wanted_front(
    calls: Seq<CallView>,
    more: CallView,
    capability: Seq<char>,
    target: Option<Seq<char>>,
    n: nat,
)
    requires
        n <= calls.len(),
    ensures
        wanted_calls(calls.push(more), capability, target, n) == wanted_calls(
            calls,
            capability,
            target,
            n,
        ),
    decreases n,
{
    if n > 0 {
        lemma_wanted_front(calls, more, capability, target, (n - 1) as nat);
        assert(calls.push(more)[n - 1] == calls[n - 1]);
    }
}

/// The calls that are asked for are those of the capability whose target matches,
/// in the order in which they were made.
pub proof fn calls_are_found_by_capability_and_target(
    calls: Seq<CallView>,
    more: CallView,
    capability: Seq<char>,
    glob: Seq<char>,
)
    ensures
        ({
            let before = wanted_calls(calls, capability, Some(glob), calls.len());
            let after = wanted_calls(calls.push(more), capability, Some(glob), calls.len() + 1);
            &&& more.capability == capability && globs(glob, more.target) ==> after == before.push(
                more,
            )
            &&& !(more.capability == capability && globs(glob, more.target)) ==> after == before
        }),
        ({
            let before = wanted_calls(calls, capability, None, calls.len());
            let after = wanted_calls(calls.push(more), capability, None, calls.len() + 1);
            &&& more.capability == capability ==> after == before.push(more)
            &&& more.capability != capability ==> after == before
        }),
        wanted_calls(calls, capability, None, 0).len() == 0,
{
    lemma_wanted_front(calls, more, capability, Some(glob), calls.len());
    lemma_wanted_front(calls, more, capability, None, calls.len());
    assert(calls.push(more)[calls.len() as int] == more);
}

/// A workflow that is registered is found under its id, in the place of any that
/// was there, and the others stay.
pub proof fn registered_workflows_are_found(
    workflows: Seq<(Seq<char>, GraphView)>,
    id: Seq<char>,
    graph: GraphView,
    other: Seq<char>,
)
    ensures
        graph_under(with_graph(workflows, id, graph), id) == Some(graph),
        other != id ==> graph_under(with_graph(workflows, id, graph), other) == graph_under(
            workflows,
            other,
        ),
        graph_under(Seq::empty(), id) is None,
    decreases workflows.len(),
{
    let grown = with_graph(workflows, id, graph);
    if workflows.len() == 0 {
        assert(grown.drop_first() =~= Seq::empty());
        reveal_with_fuel(graph_under, 2);
    } else if workflows[0].0 == id {
        assert(grown.drop_first() =~= workflows.drop_first());
    } else {
        registered_workflows_are_found(workflows.drop_first(), id, graph, other);
        assert(grown[0] == workflows[0]);
        assert(grown.drop_first() =~= with_graph(workflows.drop_first(), id, graph));
    }
}

/// A rule takes the calls of its capability whose target it matches, from its own
/// node where it names one, and from any where it names none.
pub proof fn rules_take_their_calls(
    rule: MatcherView,
    capability: Seq<char>,
    target: Seq<char>,
    node: Option<Seq<char>>,
)
    ensures
        rule.capability != capability ==> !rule.applies(capability, target, node),
        rule.capability == capability && rule.node_id is None ==> (rule.applies(
            capability,
            target,
            node,
        ) <==> globs(rule.target, target)),
        rule.node_id is Some && node != rule.node_id ==> !rule.applies(capability, target, node),
        rule.capability == capability && rule.node_id is Some && node == rule.node_id ==> (
        rule.applies(capability, target, node) <==> globs(rule.target, target)),
{
}

/// A rule that answers counts one hit more, and nothing else of what the stand-ins
/// hold changes while the answer is waited for.
pub proof fn rules_count_their_hits(
    before: MockView,
    i: int,
    node: Option<Seq<char>>,
    capability: Seq<char>,
    method: Seq<char>,
    target: Seq<char>,
    request: JsonView,
    default: JsonView,
)
    requires
        0 <= i < before.rules.len(),
        before.rules[i].matcher.applies(capability, target, node),
        forall|k: int|
            0 <= k < i ==> !(#[trigger] before.rules[k]).matcher.applies(capability, target, node),
        before.rules[i].hits < usize::MAX,
    ensures
        ({
            let (call, after) = asked(
                before,
                node,
                capability,
                method,
                target,
                request,
                default,
            );
            &&& after.rules.len() == before.rules.len()
            &&& after.rules[i].hits == before.rules[i].hits + 1
            &&& after.rules[i].respond == before.rules[i].respond
            &&& after.rules[i].matcher == before.rules[i].matcher
            &&& forall|k: int|
                0 <= k < before.rules.len() && k != i ==> #[trigger] after.rules[k]
                    == before.rules[k]
            &&& after.log == before.log
            &&& after.workflows == before.workflows
            &&& call.answer == before.rules[i].respond.answers(
                before.rules[i].hits as nat,
                default,
            )
            &&& call.args == request
            &&& call.target == target
            &&& call.capability == capability
            &&& call.method == method
            &&& call.node_id == node
        }),
{
    lemma_first(before.rules, 0, i, capability, target, node);
}

proof fn lemma_first(
    rules: Seq<RuleView>,
    from: int,
    i: int,
    capability: Seq<char>,
    target: Seq<char>,
    node: Option<Seq<char>>,
)
    requires
        0 <= from <= i < rules.len(),
        rules[i].matcher.applies(capability, target, node),
        forall|k: int|
            from <= k < i ==> !(#[trigger] rules[k]).matcher.applies(capability, target, node),
    ensures
        first_rule(rules, from, capability, target, node) == Some(i),
    decreases i - from,
{
    if from < i {
        assert(!rules[from].matcher.applies(capability, target, node));
        lemma_first(rules, from + 1, i, capability, target, node);
    }
}

/// An answer is what the rule was taught: a value, an error, the echo, or an entry
/// of a sequence by the number of the call; and a delay is waited for first.
pub proof fn answers_are_as_taught(respond: Respond, hit: nat, echo: JsonView)
    ensures
        respond matches Respond::Value(value) ==> respond.answers(hit, echo).outcome == Ok::<
            JsonView,
            Seq<char>,
        >(value@) && respond.answers(hit, echo).waits.len() == 0,
        respond matches Respond::Error(message) ==> respond.answers(hit, echo).outcome == Err::<
            JsonView,
            Seq<char>,
        >(message@) && respond.answers(hit, echo).waits.len() == 0,
        respond is Echo ==> respond.answers(hit, echo).outcome == Ok::<JsonView, Seq<char>>(echo),
        respond matches Respond::Sequence(entries) ==> (hit < entries@.len() ==> respond.answers(
            hit,
            echo,
        ) == entries@[hit as int].answers(hit, echo)),
        respond matches Respond::Delay(ms, next) ==> {
            &&& respond.answers(hit, echo).waits == seq![ms] + next.answers(hit, echo).waits
            &&& respond.answers(hit, echo).outcome == next.answers(hit, echo).outcome
        },
{
}

/// A new rule answers calls of its capability whose target its pattern covers, from
/// whichever node, as it was told to, and has answered none yet.
pub proof fn new_rules_answer_any_node(
    capability: Seq<char>,
    pattern: Seq<char>,
    respond: Respond,
    other: Seq<char>,
    target: Seq<char>,
    node_id: Option<Seq<char>>,
)
    ensures
        new_rule(capability, pattern, respond).matcher.applies(
            other,
            target,
            node_id,
        ) <==> other == capability && globs(pattern, target),
        new_rule(capability, pattern, respond).respond == respond,
        new_rule(capability, pattern, respond).hits == 0,
{
}

/// A call that no rule is asked about is logged last, as it was made and as it came
/// out, numbered by the calls before it; the calls before it and the rules are kept.
pub proof fn unruled_calls_are_logged_as_made(
    before: MockView,
    node_id: Option<Seq<char>>,
    capability: Seq<char>,
    method: Seq<char>,
    target: Seq<char>,
    args: JsonView,
    outcome: JsonView,
)
    requires
        before.log.len() <= u64::MAX,
    ensures
        ({
            let after = logged(
                before,
                node_id,
                capability,
                method,
                target,
                args,
                outcome,
            );
            &&& after.log.len() == before.log.len() + 1
            &&& after.log.drop_last() == before.log
            &&& after.log.last().seq == before.log.len()
            &&& after.log.last().capability == capability
            &&& after.log.last().method == method
            &&& after.log.last().node_id == node_id
            &&& after.log.last().target == target
            &&& after.log.last().args == args
            &&& after.log.last().outcome matches Ok(shown) && shown == outcome
            &&& after.rules == before.rules
        }),
{
    let after = logged(
        before,
        node_id,
        capability,
        method,
        target,
        args,
        outcome,
    );
    assert(after.log.drop_last() =~= before.log);
}

/// A sample is of the type its schema asks for, or of the first of several, unless
/// the schema lists the values it allows; of those it is the first.
pub proof fn samples_are_what_is_asked_for(schema: JsonView, name: Seq<char>, values: Seq<JsonView>)
    ensures
        schema.get("enum"@) == Some(JsonView::Array(values)) && values.len() > 0
            ==> sample_of(schema) == values[0],
        asks_for_type(schema, name) && schema.get("enum"@) is None && name == "object"@
            ==> sample_of(schema) is Object,
        asks_for_type(schema, name) && schema.get("enum"@) is None && name != "object"@
            ==> sample_of(schema) == empty_of(name),
{
}

/// The schema asks for one type, or for that type before others.
pub open spec fn asks_for_type(schema: JsonView, name: Seq<char>) -> bool {
    ||| schema.get("type"@) == Some(JsonView::String(name))
    ||| schema.get("type"@) matches Some(JsonView::Array(names)) && names.len() > 0 && names[0]
        == JsonView::String(name)
}

/// A sample of an object has every property that its schema declares, each with the
/// sample of its own schema, in the order of their declaration.
pub proof fn samples_have_what_is_declared(
    schema: JsonView,
    props: Seq<(Seq<char>, JsonView)>,
    i: int,
)
    requires
        schema.get("enum"@) is None,
        schema.get("type"@) is None || asks_for_type(schema, "object"@),
        schema.get("properties"@) == Some(JsonView::Object(props)),
        0 <= i < props.len(),
    ensures
        sample_of(schema) matches JsonView::Object(members) && i
            < members.len() && members[i].0 == props[i].0 && members[i].1
            == sample_of(props[i].1),
{
}

/// A sample of an object has every member that its schema requires, declared or not.
pub proof fn samples_have_what_is_required(
    schema: JsonView,
    names: Seq<JsonView>,
    i: int,
    name: Seq<char>,
)
    requires
        schema.get("enum"@) is None,
        schema.get("type"@) is None || asks_for_type(schema, "object"@),
        schema.get("required"@) == Some(JsonView::Array(names)),
        0 <= i < names.len(),
        names[i] == JsonView::String(name),
    ensures
        sample_of(schema).get(name) is Some,
{
    let props = declared(schema);
    let extra = undeclared(props, names, names.len());
    let members = sample_of(schema)->Object_0;
    lemma_undeclared_are_there(props, names, names.len(), i, name);
    if exists|k: int| 0 <= k < props.len() && (#[trigger] props[k]).0 == name {
        let k = choose|k: int| 0 <= k < props.len() && (#[trigger] props[k]).0 == name;
        assert(members[k].0 == name);
        lemma_some_member(members, name, k);
    } else {
        let k = choose|k: int| 0 <= k < extra.len() && (#[trigger] extra[k]).0 == name;
        assert(members[props.len() + k] == extra[k]);
        lemma_some_member(members, name, props.len() + k);
    }
}

proof fn lemma_some_member(entries: Seq<(Seq<char>, JsonView)>, key: Seq<char>, k: int)
    requires
        0 <= k < entries.len(),
        entries[k].0 == key,
    ensures
        JsonView::Object(entries).get(key) is Some,
    decreases entries.len(),
{
    if entries[0].0 != key {
        let rest = entries.drop_first();
        assert(rest[k - 1] == entries[k]);
        lemma_some_member(rest, key, k - 1);
        assert(JsonView::Object(rest).get(key) is Some);
    }
}

proof fn lemma_a_member(entries: Seq<(Seq<char>, JsonView)>, key: Seq<char>)
    requires
        entry(entries, key) is Some,
    ensures
        exists|k: int| 0 <= k < entries.len() && (#[trigger] entries[k]).0 == key,
    decreases entries.len(),
{
    if entries[0].0 != key {
        let rest = entries.drop_first();
        lemma_a_member(rest, key);
        let k = choose|k: int| 0 <= k < rest.len() && (#[trigger] rest[k]).0 == key;
        assert(entries[k + 1] == rest[k]);
    }
}

proof fn lemma_undeclared_are_there(
    props: Seq<(Seq<char>, JsonView)>,
    names: Seq<JsonView>,
    n: nat,
    i: int,
    name: Seq<char>,
)
    requires
        0 <= i < n <= names.len(),
        names[i] == JsonView::String(name),
    ensures
        (exists|k: int| 0 <= k < props.len() && (#[trigger] props[k]).0 == name) || (exists|k: int|
            0 <= k < undeclared(props, names, n).len() && (
            #[trigger] undeclared(props, names, n)[k]).0 == name),
    decreases n,
{
    let rest = undeclared(props, names, (n - 1) as nat);
    let now = undeclared(props, names, n);
    if i < n - 1 {
        lemma_undeclared_are_there(props, names, (n - 1) as nat, i, name);
        if exists|k: int| 0 <= k < rest.len() && (#[trigger] rest[k]).0 == name {
            let k = choose|k: int| 0 <= k < rest.len() && (#[trigger] rest[k]).0 == name;
            assert(now[k].0 == name);
        }
    } else if entry(props, name) is Some {
        lemma_a_member(props, name);
    } else if entry(rest, name) is Some {
        lemma_a_member(rest, name);
    } else {
        assert(now[rest.len() as int].0 == name);
    }
}

} // verus!
