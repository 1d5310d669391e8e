//! One stand-in per capability: what it asks the rules, and what it answers
//! where no rule applies.
use vstd::prelude::*;

use crate::json::{
    array, count_json, entry, lemma_set_member_keeps_others, lemma_set_member_reads_back, member,
    members, object, opt_str_json, opt_text, set_member, text_json, text_or_null, with_member, Json,
    JsonView, Number, NumberView,
};
use crate::json_text::{json_text, print_json};
use crate::testkit::capability::{AGENT, CODE, HTTP, LLM, MEMORY, SHELL, STATE, TOOLS};
use crate::testkit::mocks::{asked, logged, MockCaps, OpenCall};
use crate::text::{opt_str, opt_view, same};

verus! {

/// The stand-in that one node's calls go through.
#[derive(Debug, PartialEq, Eq)]
pub struct Double {
    /// The node the calls are logged under.
    pub node_id: Option<String>,
    /// What the state store holds.
    pub state: Vec<(String, Json)>,
}

/// The value of a text that may be missing, as one.
fn copy_str(text: Option<&str>) -> (r: Option<String>)
    ensures
        opt_view(r) == opt_str(text),
{
    match text {
        Some(inner) => Some(inner.to_owned()),
        None => None,
    }
}

fn node_of(double: &Double) -> (r: Option<&str>)
    ensures
        opt_str(r) == opt_view(double.node_id),
{
    match &double.node_id {
        Some(node) => Some(node.as_str()),
        None => None,
    }
}

/// What a model stand-in echoes.
pub open spec fn completion_echo(request: JsonView, conn: Option<Seq<char>>) -> JsonView {
    JsonView::Object(seq![("completion"@, request), ("connection"@, text_or_null(conn))])
}

/// What a tool stand-in echoes.
pub open spec fn tool_echo(slug: Seq<char>, args: JsonView, conn: Option<Seq<char>>) -> JsonView {
    JsonView::Object(
        seq![
            ("tool"@, JsonView::String(slug)),
            ("args"@, args),
            ("connection"@, text_or_null(conn)),
        ],
    )
}

/// What an HTTP stand-in echoes.
pub open spec fn http_echo(request: JsonView, conn: Option<Seq<char>>) -> JsonView {
    JsonView::Object(
        seq![
            ("status"@, JsonView::Number(NumberView::PosInt(200))),
            ("request"@, request),
            ("connection"@, text_or_null(conn)),
        ],
    )
}

/// What an agent stand-in echoes.
pub open spec fn agent_echo(
    agent_ref: Seq<char>,
    request: JsonView,
    conn: Option<Seq<char>>,
) -> JsonView {
    JsonView::Object(
        seq![
            ("agent"@, JsonView::String(agent_ref)),
            ("request"@, request),
            ("connection"@, text_or_null(conn)),
        ],
    )
}

/// A code run as the rules see it.
pub open spec fn code_request(language: Seq<char>, source: Seq<char>, input: JsonView) -> JsonView {
    JsonView::Object(
        seq![
            ("language"@, JsonView::String(language)),
            ("source"@, JsonView::String(source)),
            ("input"@, input),
        ],
    )
}

/// What a code stand-in echoes: its input.
pub open spec fn code_echo(input: JsonView) -> JsonView {
    JsonView::Object(seq![("result"@, input)])
}

/// A script to be run.
#[derive(Debug, PartialEq, Eq)]
pub struct ShellRequest {
    pub interpreter: String,
    /// The script itself, or where it stands.
    pub script: String,
    pub cwd: Option<String>,
    pub env: Json,
    pub input: Json,
}

/// What a script came to.
#[derive(Debug, PartialEq, Eq)]
pub struct ShellOutcome {
    pub exit_code: i32,
    pub stdout: String,
    pub stderr: String,
}

#[verifier::ext_equal]
pub struct ShellView {
    pub exit_code: i32,
    pub stdout: Seq<char>,
    pub stderr: Seq<char>,
}

impl View for ShellOutcome {
    type V = ShellView;

    open spec fn view(&self) -> ShellView {
        ShellView { exit_code: self.exit_code, stdout: self.stdout@, stderr: self.stderr@ }
    }
}

/// A script as the rules see it.
pub open spec fn shell_request(request: ShellRequest) -> JsonView {
    JsonView::Object(
        seq![
            ("interpreter"@, JsonView::String(request.interpreter@)),
            ("script"@, JsonView::String(request.script@)),
            ("cwd"@, text_or_null(opt_view(request.cwd))),
            ("env"@, request.env@),
            ("input"@, request.input@),
        ],
    )
}

/// What a shell stand-in echoes: the script, printed.
pub open spec fn shell_echo(script: Seq<char>) -> JsonView {
    JsonView::Object(
        seq![
            ("exit_code"@, JsonView::Number(NumberView::PosInt(0))),
            ("stdout"@, JsonView::String(script)),
            ("stderr"@, JsonView::String(""@)),
        ],
    )
}

/// The exit code a value states; 0 where it states none that fits.
pub open spec fn exit_code_of(value: JsonView) -> i32 {
    match value.get("exit_code"@) {
        Some(JsonView::Number(NumberView::PosInt(n))) => if n <= i32::MAX {
            n as i32
        } else {
            0
        },
        Some(JsonView::Number(NumberView::NegInt(n))) => if i32::MIN <= n <= i32::MAX {
            n as i32
        } else {
            0
        },
        _ => 0,
    }
}

/// The outcome a value describes: all of it where it says so, and else the
/// value itself as what was printed.
pub open spec fn shell_outcome(value: JsonView) -> ShellView {
    ShellView {
        exit_code: exit_code_of(value),
        stdout: match value.text_at("stdout"@) {
            Some(text) => text,
            None => json_text(value),
        },
        stderr: value.text_or_empty("stderr"@),
    }
}

/// The outcome a value describes.
pub fn read_shell_outcome(value: &Json) -> (r: ShellOutcome)
    ensures
        r@ == shell_outcome(value@),
{
    let exit_code: i32 = match value.get("exit_code") {
        Some(Json::Number(Number::PosInt(n))) => {
            if *n <= i32::MAX as u64 {
                *n as i32
            } else {
                0
            }
        },
        Some(Json::Number(Number::NegInt(n))) => {
            if i32::MIN as i64 <= *n && *n <= i32::MAX as i64 {
                *n as i32
            } else {
                0
            }
        },
        _ => 0,
    };
    let stdout = match value.text_copy("stdout") {
        Some(text) => text,
        None => print_json(value),
    };
    ShellOutcome { exit_code, stdout, stderr: value.text_or_empty("stderr") }
}

/// A memory lookup as the rules see it.
pub open spec fn recall_request(scope: Seq<char>, query: Seq<char>, opts: JsonView) -> JsonView {
    JsonView::Object(
        seq![
            ("scope"@, JsonView::String(scope)),
            ("query"@, JsonView::String(query)),
            ("opts"@, opts),
        ],
    )
}

/// What a memory stand-in recalls where it was taught nothing.
pub open spec fn recall_echo() -> JsonView {
    JsonView::Object(seq![("results"@, JsonView::Array(Seq::empty()))])
}

/// A memory write as the rules see it.
pub open spec fn remember_request(scope: Seq<char>, key: Seq<char>, value: JsonView) -> JsonView {
    JsonView::Object(
        seq![
            ("scope"@, JsonView::String(scope)),
            ("key"@, JsonView::String(key)),
            ("value"@, value),
        ],
    )
}

/// A flavour lookup as the rules see it.
pub open spec fn flavour_request(slug: Seq<char>) -> JsonView {
    JsonView::Object(seq![("slug"@, JsonView::String(slug))])
}

/// What a memory stand-in knows of a flavour where it was taught nothing.
pub open spec fn flavour_echo() -> JsonView {
    JsonView::Object(seq![("traits"@, JsonView::Object(Seq::empty()))])
}

/// A lookup of people as the rules see it.
pub open spec fn people_request(query: Option<Seq<char>>) -> JsonView {
    JsonView::Object(seq![("query"@, text_or_null(query))])
}

/// Whom a memory stand-in knows where it was taught nobody.
pub open spec fn people_echo() -> JsonView {
    JsonView::Object(seq![("people"@, JsonView::Array(Seq::empty()))])
}

/// A memory removal as the rules see it.
pub open spec fn forget_request(scope: Seq<char>, key: Seq<char>) -> JsonView {
    JsonView::Object(seq![("scope"@, JsonView::String(scope)), ("key"@, JsonView::String(key))])
}

/// A state read as the log shows it.
pub open spec fn load_request(key: Seq<char>) -> JsonView {
    JsonView::Object(seq![("key"@, JsonView::String(key))])
}

/// A state write as the log shows it.
pub open spec fn store_request(key: Seq<char>, value: JsonView) -> JsonView {
    JsonView::Object(seq![("key"@, JsonView::String(key)), ("value"@, value)])
}

/// What the state store holds under a key.
pub open spec fn held(state: Seq<(Seq<char>, JsonView)>, key: Seq<char>) -> JsonView {
    match entry(state, key) {
        Some(value) => value,
        None => JsonView::Null,
    }
}

impl Double {
    /// The stand-in of a node, with an empty state store.
    pub fn new(node_id: Option<&str>) -> (r: Self)
        ensures
            opt_view(r.node_id) == opt_str(node_id),
            members(r.state@) == Seq::<(Seq<char>, JsonView)>::empty(),
    {
        let r = Double { node_id: copy_str(node_id), state: Vec::new() };
        assert(members(r.state@) =~= Seq::empty());
        r
    }

    /// A completion.
    pub fn complete(&self, mocks: &mut MockCaps, request: Json, conn: Option<&str>) -> (r: OpenCall)
        ensures
            (r@, final(mocks)@) == asked(
                old(mocks)@,
                opt_view(self.node_id),
                LLM@,
                "complete"@,
                ""@,
                request@,
                completion_echo(request@, opt_str(conn)),
            ),
    {
        let mut echo: Vec<(String, Json)> = Vec::new();
        echo.push(member("completion", request.clone()));
        echo.push(member("connection", opt_str_json(conn)));
        assert(members(echo@) =~= completion_echo(request@, opt_str(conn))->Object_0);
        mocks.ask(node_of(self), LLM, "complete", "", request, object(echo))
    }

    /// A tool call.
    pub fn invoke(&self, mocks: &mut MockCaps, slug: &str, args: Json, conn: Option<&str>) -> (r:
        OpenCall)
        ensures
            (r@, final(mocks)@) == asked(
                old(mocks)@,
                opt_view(self.node_id),
                TOOLS@,
                "invoke"@,
                slug@,
                args@,
                tool_echo(slug@, args@, opt_str(conn)),
            ),
    {
        let mut echo: Vec<(String, Json)> = Vec::new();
        echo.push(member("tool", text_json(slug)));
        echo.push(member("args", args.clone()));
        echo.push(member("connection", opt_str_json(conn)));
        assert(members(echo@) =~= tool_echo(slug@, args@, opt_str(conn))->Object_0);
        mocks.ask(node_of(self), TOOLS, "invoke", slug, args, object(echo))
    }

    /// An HTTP request; its address is what rules go by.
    pub fn request(&self, mocks: &mut MockCaps, request: Json, conn: Option<&str>) -> (r: OpenCall)
        ensures
            (r@, final(mocks)@) == asked(
                old(mocks)@,
                opt_view(self.node_id),
                HTTP@,
                "request"@,
                request@.text_or_empty("url"@),
                request@,
                http_echo(request@, opt_str(conn)),
            ),
    {
        let url = request.text_or_empty("url");
        let mut echo: Vec<(String, Json)> = Vec::new();
        echo.push(member("status", count_json(200)));
        echo.push(member("request", request.clone()));
        echo.push(member("connection", opt_str_json(conn)));
        assert(members(echo@) =~= http_echo(request@, opt_str(conn))->Object_0);
        mocks.ask(node_of(self), HTTP, "request", url.as_str(), request, object(echo))
    }

    /// A code run; its language is what rules go by.
    pub fn run_code(&self, mocks: &mut MockCaps, language: &str, source: &str, input: Json) -> (r:
        OpenCall)
        ensures
            (r@, final(mocks)@) == asked(
                old(mocks)@,
                opt_view(self.node_id),
                CODE@,
                "run"@,
                language@,
                code_request(language@, source@, input@),
                code_echo(input@),
            ),
    {
        let mut echo: Vec<(String, Json)> = Vec::new();
        echo.push(member("result", input.clone()));
        assert(members(echo@) =~= code_echo(input@)->Object_0);
        let mut wanted: Vec<(String, Json)> = Vec::new();
        wanted.push(member("language", text_json(language)));
        wanted.push(member("source", text_json(source)));
        wanted.push(member("input", input));
        assert(members(wanted@) =~= code_request(language@, source@, input@)->Object_0);
        mocks.ask(node_of(self), CODE, "run", language, object(wanted), object(echo))
    }

    /// A script; its own text is what rules go by. The outcome is read with
    /// [`read_shell_outcome`].
    pub fn run(&self, mocks: &mut MockCaps, request: &ShellRequest) -> (r: OpenCall)
        ensures
            (r@, final(mocks)@) == asked(
                old(mocks)@,
                opt_view(self.node_id),
                SHELL@,
                "run"@,
                request.script@,
                shell_request(*request),
                shell_echo(request.script@),
            ),
    {
        let script = request.script.as_str();
        let mut echo: Vec<(String, Json)> = Vec::new();
        echo.push(member("exit_code", count_json(0)));
        echo.push(member("stdout", text_json(script)));
        echo.push(member("stderr", text_json("")));
        assert(members(echo@) =~= shell_echo(request.script@)->Object_0);
        let mut wanted: Vec<(String, Json)> = Vec::new();
        wanted.push(member("interpreter", text_json(request.interpreter.as_str())));
        wanted.push(member("script", text_json(script)));
        wanted.push(member("cwd", opt_text(&request.cwd)));
        wanted.push(member("env", request.env.clone()));
        wanted.push(member("input", request.input.clone()));
        assert(members(wanted@) =~= shell_request(*request)->Object_0);
        mocks.ask(node_of(self), SHELL, "run", script, object(wanted), object(echo))
    }

    /// An agent run.
    pub fn run_agent(
        &self,
        mocks: &mut MockCaps,
        agent_ref: &str,
        request: Json,
        conn: Option<&str>,
    ) -> (r: OpenCall)
        ensures
            (r@, final(mocks)@) == asked(
                old(mocks)@,
                opt_view(self.node_id),
                AGENT@,
                "run_agent"@,
                agent_ref@,
                request@,
                agent_echo(agent_ref@, request@, opt_str(conn)),
            ),
    {
        let mut echo: Vec<(String, Json)> = Vec::new();
        echo.push(member("agent", text_json(agent_ref)));
        echo.push(member("request", request.clone()));
        echo.push(member("connection", opt_str_json(conn)));
        assert(members(echo@) =~= agent_echo(agent_ref@, request@, opt_str(conn))->Object_0);
        mocks.ask(node_of(self), AGENT, "run_agent", agent_ref, request, object(echo))
    }

    /// A memory lookup; its scope is what rules go by.
    pub fn recall(&self, mocks: &mut MockCaps, scope: &str, query: &str, opts: Json) -> (r: OpenCall)
        ensures
            (r@, final(mocks)@) == asked(
                old(mocks)@,
                opt_view(self.node_id),
                MEMORY@,
                "recall"@,
                scope@,
                recall_request(scope@, query@, opts@),
                recall_echo(),
            ),
    {
        let none: Vec<Json> = Vec::new();
        let empty = array(none);
        assert(empty@->Array_0 =~= Seq::empty());
        let mut echo: Vec<(String, Json)> = Vec::new();
        echo.push(member("results", empty));
        assert(members(echo@) =~= recall_echo()->Object_0);
        let mut wanted: Vec<(String, Json)> = Vec::new();
        wanted.push(member("scope", text_json(scope)));
        wanted.push(member("query", text_json(query)));
        wanted.push(member("opts", opts));
        assert(members(wanted@) =~= recall_request(scope@, query@, opts@)->Object_0);
        mocks.ask(node_of(self), MEMORY, "recall", scope, object(wanted), object(echo))
    }

    /// A memory write; its scope and key are what rules go by.
    pub fn remember(&self, mocks: &mut MockCaps, scope: &str, key: &str, value: Json) -> (r: OpenCall)
        ensures
            (r@, final(mocks)@) == asked(
                old(mocks)@,
                opt_view(self.node_id),
                MEMORY@,
                "remember"@,
                scope@ + "/"@ + key@,
                remember_request(scope@, key@, value@),
                JsonView::Null,
            ),
    {
        let mut target = scope.to_owned();
        target.append("/");
        target.append(key);
        let mut wanted: Vec<(String, Json)> = Vec::new();
        wanted.push(member("scope", text_json(scope)));
        wanted.push(member("key", text_json(key)));
        wanted.push(member("value", value));
        assert(members(wanted@) =~= remember_request(scope@, key@, value@)->Object_0);
        mocks.ask(
            node_of(self),
            MEMORY,
            "remember",
            target.as_str(),
            object(wanted),
            Json::Null,
        )
    }

    /// A flavour lookup; its slug is what rules go by.
    pub fn flavour(&self, mocks: &mut MockCaps, slug: &str) -> (r: OpenCall)
        ensures
            (r@, final(mocks)@) == asked(
                old(mocks)@,
                opt_view(self.node_id),
                MEMORY@,
                "flavour"@,
                slug@,
                flavour_request(slug@),
                flavour_echo(),
            ),
    {
        let none: Vec<(String, Json)> = Vec::new();
        let empty = object(none);
        assert(empty@->Object_0 =~= Seq::empty());
        let mut echo: Vec<(String, Json)> = Vec::new();
        echo.push(member("traits", empty));
        assert(members(echo@) =~= flavour_echo()->Object_0);
        let mut wanted: Vec<(String, Json)> = Vec::new();
        wanted.push(member("slug", text_json(slug)));
        assert(members(wanted@) =~= flavour_request(slug@)->Object_0);
        mocks.ask(node_of(self), MEMORY, "flavour", slug, object(wanted), object(echo))
    }

    /// A lookup of people.
    pub fn people(&self, mocks: &mut MockCaps, query: Option<&str>) -> (r: OpenCall)
        ensures
            (r@, final(mocks)@) == asked(
                old(mocks)@,
                opt_view(self.node_id),
                MEMORY@,
                "people"@,
                ""@,
                people_request(opt_str(query)),
                people_echo(),
            ),
    {
        let none: Vec<Json> = Vec::new();
        let empty = array(none);
        assert(empty@->Array_0 =~= Seq::empty());
        let mut echo: Vec<(String, Json)> = Vec::new();
        echo.push(member("people", empty));
        assert(members(echo@) =~= people_echo()->Object_0);
        let mut wanted: Vec<(String, Json)> = Vec::new();
        wanted.push(member("query", opt_str_json(query)));
        assert(members(wanted@) =~= people_request(opt_str(query))->Object_0);
        mocks.ask(node_of(self), MEMORY, "people", "", object(wanted), object(echo))
    }

    /// A memory removal; its scope and key are what rules go by.
    pub fn forget(&self, mocks: &mut MockCaps, scope: &str, key: &str) -> (r: OpenCall)
        ensures
            (r@, final(mocks)@) == asked(
                old(mocks)@,
                opt_view(self.node_id),
                MEMORY@,
                "forget"@,
                scope@ + "/"@ + key@,
                forget_request(scope@, key@),
                JsonView::Null,
            ),
    {
        let mut target = scope.to_owned();
        target.append("/");
        target.append(key);
        let mut wanted: Vec<(String, Json)> = Vec::new();
        wanted.push(member("scope", text_json(scope)));
        wanted.push(member("key", text_json(key)));
        assert(members(wanted@) =~= forget_request(scope@, key@)->Object_0);
        mocks.ask(
            node_of(self),
            MEMORY,
            "forget",
            target.as_str(),
            object(wanted),
            Json::Null,
        )
    }

    /// A state read. The store itself answers, and no rule is asked.
    pub fn load(&self, mocks: &mut MockCaps, key: &str) -> (r: Option<Json>)
        ensures
            opt_view(r) == entry(members(self.state@), key@),
            final(mocks)@ == logged(
                old(mocks)@,
                opt_view(self.node_id),
                STATE@,
                "load"@,
                key@,
                load_request(key@),
                held(members(self.state@), key@),
            ),
    {
        let ghost all = members(self.state@);
        let mut found: Option<Json> = None;
        let mut i: usize = 0;
        assert(all.skip(0) =~= all);
        while i < self.state.len() && found.is_none()
            invariant
                i <= self.state@.len(),
                all == members(self.state@),
                match found {
                    Some(value) => entry(all, key@) == Some(value@),
                    None => entry(all, key@) == entry(all.skip(i as int), key@),
                },
            decreases self.state@.len() - i,
        {
            assert(all.skip(i as int)[0] == (self.state@[i as int].0@, self.state@[i as int].1@));
            assert(all.skip(i as int).drop_first() =~= all.skip(i + 1));
            if same(self.state[i].0.as_str(), key) {
                found = Some(self.state[i].1.clone());
            }
            i = i + 1;
        }
        proof {
            if found is None {
                assert(all.skip(i as int) =~= Seq::empty());
            }
        }
        let mut wanted: Vec<(String, Json)> = Vec::new();
        wanted.push(member("key", text_json(key)));
        assert(members(wanted@) =~= load_request(key@)->Object_0);
        let shown = match &found {
            Some(value) => value.clone(),
            None => Json::Null,
        };
        mocks.note(node_of(self), STATE, "load", key, object(wanted), shown);
        found
    }

    /// A state write.
    pub fn store(&mut self, mocks: &mut MockCaps, key: &str, value: Json)
        ensures
            members(final(self).state@) == with_member(members(old(self).state@), key@, value@),
            final(self).node_id == old(self).node_id,
            final(mocks)@ == logged(
                old(mocks)@,
                opt_view(old(self).node_id),
                STATE@,
                "store"@,
                key@,
                store_request(key@, value@),
                JsonView::Null,
            ),
    {
        let mut wanted: Vec<(String, Json)> = Vec::new();
        wanted.push(member("key", text_json(key)));
        wanted.push(member("value", value.clone()));
        assert(members(wanted@) =~= store_request(key@, value@)->Object_0);
        mocks.note(node_of(self), STATE, "store", key, object(wanted), Json::Null);
        set_member(&mut self.state, key, value);
    }
}

/// What the state store was given reads back, and nothing else changes.
pub proof fn stored_state_reads_back(
    state: Seq<(Seq<char>, JsonView)>,
    key: Seq<char>,
    value: JsonView,
    other: Seq<char>,
)
    ensures
        entry(with_member(state, key, value), key) == Some(value),
        other != key ==> entry(with_member(state, key, value), other) == entry(state, other),
{
    lemma_set_member_reads_back(state, key, value);
    if other != key {
        lemma_set_member_keeps_others(state, key, value, other);
    }
}

} // verus!
