//! Programmable, recording stand-ins for capabilities: rules in, a log of the
//! calls out.
//!
//! The first rule that matches a call answers it. A call that no rule matches
//! is answered by the capability's own echo, so that a graph under test never
//! fails because something was left unprogrammed.
use vstd::prelude::*;

use crate::json::{Json, JsonView};
use crate::model::graph::{GraphView, WorkflowGraph};
use crate::testkit::capability::{AGENT, CODE, HTTP, LLM, SHELL, TOOLS};
use crate::testkit::glob::{glob_matches, globs};
use crate::testkit::sample::{sample_for_schema, sample_of};
use crate::text::{copy_opt, debug_text, opt_str, opt_view, quoted, same, views};

verus! {

/// How a call ended.
#[derive(Debug, PartialEq, Eq)]
pub enum CallOutcome {
    /// It returned this value.
    Returned(Json),
    /// It failed with this message.
    Failed(String),
}

/// The value of an outcome.
pub open spec fn outcome_view(outcome: CallOutcome) -> Result<JsonView, Seq<char>> {
    match outcome {
        CallOutcome::Returned(value) => Ok(value@),
        CallOutcome::Failed(message) => Err(message@),
    }
}

/// One call that was made.
#[derive(Debug, PartialEq, Eq)]
pub struct CapCall {
    /// Its position among all calls, from 0.
    pub seq: u64,
    pub capability: String,
    pub method: String,
    /// The node that made it.
    pub node_id: Option<String>,
    /// What within the capability it went to: a slug, an agent, an address, a
    /// key. Empty where the capability has no such thing.
    pub target: String,
    pub args: Json,
    pub outcome: CallOutcome,
}

#[verifier::ext_equal]
pub struct CallView {
    pub seq: u64,
    pub capability: Seq<char>,
    pub method: Seq<char>,
    pub node_id: Option<Seq<char>>,
    pub target: Seq<char>,
    pub args: JsonView,
    pub outcome: Result<JsonView, Seq<char>>,
}

impl View for CapCall {
    type V = CallView;

    open spec fn view(&self) -> CallView {
        CallView {
            seq: self.seq,
            capability: self.capability@,
            method: self.method@,
            node_id: opt_view(self.node_id),
            target: self.target@,
            args: self.args@,
            outcome: outcome_view(self.outcome),
        }
    }
}

impl Clone for CapCall {
    fn clone(&self) -> (r: Self)
        ensures
            r@ == self@,
    {
        CapCall {
            seq: self.seq,
            capability: self.capability.clone(),
            method: self.method.clone(),
            node_id: copy_opt(&self.node_id),
            target: self.target.clone(),
            args: self.args.clone(),
            outcome: match &self.outcome {
                CallOutcome::Returned(value) => CallOutcome::Returned(value.clone()),
                CallOutcome::Failed(message) => CallOutcome::Failed(message.clone()),
            },
        }
    }
}

/// Every call that was made, in order.
#[derive(Debug, PartialEq, Eq)]
pub struct CallLog {
    calls: Vec<CapCall>,
}

impl View for CallLog {
    type V = Seq<CallView>;

    closed spec fn view(&self) -> Seq<CallView> {
        views(self.calls@)
    }
}

/// A call is of a capability, and its target matches the glob where one is
/// given.
pub open spec fn is_wanted(
    call: CallView,
    capability: Seq<char>,
    target: Option<Seq<char>>,
) -> bool {
    &&& call.capability == capability
    &&& match target {
        Some(glob) => globs(glob, call.target),
        None => true,
    }
}

/// The wanted calls among the first `n`.
pub open spec fn wanted_calls(
    calls: Seq<CallView>,
    capability: Seq<char>,
    target: Option<Seq<char>>,
    n: nat,
) -> Seq<CallView>
    decreases n,
{
    if n == 0 {
        Seq::empty()
    } else {
        let rest = wanted_calls(calls, capability, target, (n - 1) as nat);
        if is_wanted(calls[n - 1], capability, target) {
            rest.push(calls[n - 1])
        } else {
            rest
        }
    }
}

impl CallLog {
    /// An empty log.
    pub fn new() -> (r: Self)
        ensures
            r@ == Seq::<CallView>::empty(),
    {
        let r = CallLog { calls: Vec::new() };
        assert(r@ =~= Seq::empty());
        r
    }

    /// Appends a call under the next number.
    fn record(
        &mut self,
        capability: &str,
        method: &str,
        node_id: Option<String>,
        target: &str,
        args: Json,
        outcome: CallOutcome,
    )
        ensures
            final(self)@ == old(self)@.push(
                CallView {
                    seq: old(self)@.len() as u64,
                    capability: capability@,
                    method: method@,
                    node_id: opt_view(node_id),
                    target: target@,
                    args: args@,
                    outcome: outcome_view(outcome),
                },
            ),
    {
        let ghost before = self@;
        let call = CapCall {
            seq: self.calls.len() as u64,
            capability: capability.to_owned(),
            method: method.to_owned(),
            node_id,
            target: target.to_owned(),
            args,
            outcome,
        };
        self.calls.push(call);
        assert(self@ =~= before.push(call@));
    }

    /// Every call, in order.
    pub fn calls(&self) -> (r: Vec<CapCall>)
        ensures
            views(r@) == self@,
    {
        let mut copies: Vec<CapCall> = Vec::new();
        let mut i: usize = 0;
        while i < self.calls.len()
            invariant
                i <= self.calls@.len(),
                copies@.len() == i,
                forall|k: int| 0 <= k < i ==> (#[trigger] copies@[k])@ == self.calls@[k]@,
            decreases self.calls@.len() - i,
        {
            copies.push(self.calls[i].clone());
            i = i + 1;
        }
        assert(views(copies@) =~= self@);
        copies
    }

    /// The calls of a capability whose target matches a glob, in order.
    pub fn matching(&self, capability: &str, target: Option<&str>) -> (r: Vec<CapCall>)
        ensures
            views(r@) == wanted_calls(self@, capability@, opt_str(target), self@.len()),
    {
        let ghost all = self@;
        let mut found: Vec<CapCall> = Vec::new();
        let mut i: usize = 0;
        assert(views(found@) =~= wanted_calls(all, capability@, opt_str(target), 0));
        while i < self.calls.len()
            invariant
                i <= self.calls@.len(),
                all == views(self.calls@),
                views(found@) == wanted_calls(all, capability@, opt_str(target), i as nat),
            decreases self.calls@.len() - i,
        {
            assert(all[i as int] == self.calls@[i as int]@);
            let call = &self.calls[i];
            let fits = match target {
                Some(glob) => glob_matches(glob, call.target.as_str()),
                None => true,
            };
            let ghost before = views(found@);
            if same(call.capability.as_str(), capability) && fits {
                found.push(call.clone());
                assert(views(found@) =~= before.push(call@));
            }
            i = i + 1;
        }
        found
    }

    /// How many calls match.
    pub fn count(&self, capability: &str, target: Option<&str>) -> (r: usize)
        ensures
            r == wanted_calls(self@, capability@, opt_str(target), self@.len()).len(),
    {
        let found = self.matching(capability, target);
        assert(views(found@).len() == found@.len());
        found.len()
    }
}

/// What a rule answers with.
#[derive(Debug, PartialEq, Eq)]
pub enum Respond {
    /// This value.
    Value(Json),
    /// A failure with this message.
    Error(String),
    /// The entry of the call's number; the last one for every call past the
    /// end. An empty sequence leaves the answer to the capability's own echo.
    Sequence(Vec<Respond>),
    /// Another answer, after so many milliseconds.
    Delay(u64, Box<Respond>),
    /// A value that meets this JSON Schema.
    Schema(Json),
    /// The capability's own echo of the request, as where no rule applies.
    Echo,
}

/// An answer: how long to wait for it, and what it is.
#[derive(Debug, PartialEq, Eq)]
pub struct Answer {
    /// The waits, in milliseconds, one after the other.
    pub waits: Vec<u64>,
    pub outcome: CallOutcome,
}

#[verifier::ext_equal]
pub struct AnswerView {
    pub waits: Seq<u64>,
    pub outcome: Result<JsonView, Seq<char>>,
}

impl View for Answer {
    type V = AnswerView;

    open spec fn view(&self) -> AnswerView {
        AnswerView { waits: self.waits@, outcome: outcome_view(self.outcome) }
    }
}

/// An answer that is there at once.
pub open spec fn at_once(outcome: Result<JsonView, Seq<char>>) -> AnswerView {
    AnswerView { waits: Seq::empty(), outcome }
}

impl Respond {
    /// What this answers to call number `hit` of a capability whose own echo is
    /// `echo`.
    pub open spec fn answers(self, hit: nat, echo: JsonView) -> AnswerView
        decreases self,
    {
        match self {
            Respond::Value(value) => at_once(Ok(value@)),
            Respond::Error(message) => at_once(Err(message@)),
            Respond::Sequence(entries) => if entries@.len() == 0 {
                at_once(Ok(echo))
            } else if hit < entries@.len() {
                entries@[hit as int].answers(hit, echo)
            } else {
                entries@[entries@.len() - 1].answers(hit, echo)
            },
            Respond::Delay(ms, next) => {
                let later = next.answers(hit, echo);
                AnswerView { waits: seq![ms] + later.waits, ..later }
            },
            Respond::Schema(schema) => at_once(Ok(sample_of(schema@))),
            Respond::Echo => at_once(Ok(echo)),
        }
    }

    /// Answers with a value.
    pub fn value(value: Json) -> (r: Self)
        ensures
            r == Respond::Value(value),
    {
        Respond::Value(value)
    }

    /// Fails with a message.
    pub fn error(message: &str) -> (r: Self)
        ensures
            r matches Respond::Error(text) && text@ == message@,
    {
        Respond::Error(message.to_owned())
    }

    /// Answers successive calls with successive entries.
    pub fn sequence(entries: Vec<Respond>) -> (r: Self)
        ensures
            r == Respond::Sequence(entries),
    {
        Respond::Sequence(entries)
    }

    /// Waits, and answers then.
    pub fn after(delay_ms: u64, then_answer: Respond) -> (r: Self)
        ensures
            r == Respond::Delay(delay_ms, Box::new(then_answer)),
    {
        Respond::Delay(delay_ms, Box::new(then_answer))
    }

    /// Answers with a value that meets a schema.
    pub fn schema(schema: Json) -> (r: Self)
        ensures
            r == Respond::Schema(schema),
    {
        Respond::Schema(schema)
    }

    /// What this answers to call number `hit` of a capability whose own echo is
    /// `echo`.
    pub fn answer(&self, hit: usize, echo: &Json) -> (r: Answer)
        ensures
            r@ == self.answers(hit as nat, echo@),
        decreases *self,
    {
        match self {
            Respond::Value(value) => {
                let r = Answer { waits: Vec::new(), outcome: CallOutcome::Returned(value.clone()) };
                assert(r@.waits =~= Seq::empty());
                r
            },
            Respond::Error(message) => {
                let r = Answer { waits: Vec::new(), outcome: CallOutcome::Failed(message.clone()) };
                assert(r@.waits =~= Seq::empty());
                r
            },
            Respond::Sequence(entries) => {
                if entries.len() == 0 {
                    let r = Answer {
                        waits: Vec::new(),
                        outcome: CallOutcome::Returned(echo.clone()),
                    };
                    assert(r@.waits =~= Seq::empty());
                    return r;
                }
                let at: usize = if hit < entries.len() {
                    hit
                } else {
                    entries.len() - 1
                };
                assert(decreases_to!(*self => self->Sequence_0));
                assert(decreases_to!(*entries => entries@));
                assert(decreases_to!(entries@ => entries@[at as int]));
                entries[at].answer(hit, echo)
            },
            Respond::Delay(ms, next) => {
                let later = next.answer(hit, echo);
                let mut waits: Vec<u64> = Vec::new();
                waits.push(*ms);
                let mut rest = later.waits;
                let ghost tail = rest@;
                waits.append(&mut rest);
                assert(waits@ =~= seq![*ms] + tail);
                Answer { waits, outcome: later.outcome }
            },
            Respond::Schema(schema) => {
                let r = Answer {
                    waits: Vec::new(),
                    outcome: CallOutcome::Returned(sample_for_schema(schema)),
                };
                assert(r@.waits =~= Seq::empty());
                r
            },
            Respond::Echo => {
                let r = Answer { waits: Vec::new(), outcome: CallOutcome::Returned(echo.clone()) };
                assert(r@.waits =~= Seq::empty());
                r
            },
        }
    }
}

/// Which calls a rule applies to.
#[derive(Debug, PartialEq, Eq)]
pub struct Matcher {
    pub capability: String,
    /// A glob over the call's target.
    pub target: String,
    /// The node the call has to come from, where it has to.
    pub node_id: Option<String>,
}

#[verifier::ext_equal]
pub struct MatcherView {
    pub capability: Seq<char>,
    pub target: Seq<char>,
    pub node_id: Option<Seq<char>>,
}

impl View for Matcher {
    type V = MatcherView;

    open spec fn view(&self) -> MatcherView {
        MatcherView {
            capability: self.capability@,
            target: self.target@,
            node_id: opt_view(self.node_id),
        }
    }
}

impl MatcherView {
    /// The rule applies to a call.
    pub open spec fn applies(
        self,
        capability: Seq<char>,
        target: Seq<char>,
        node_id: Option<Seq<char>>,
    ) -> bool {
        &&& self.capability == capability
        &&& globs(self.target, target)
        &&& self.node_id is Some ==> node_id == self.node_id
    }
}

impl Matcher {
    /// Whether the rule applies to a call.
    pub fn matches(&self, capability: &str, target: &str, node_id: Option<&str>) -> (r: bool)
        ensures
            r == self@.applies(capability@, target@, opt_str(node_id)),
    {
        let from = match &self.node_id {
            Some(wanted) => match node_id {
                Some(node) => same(wanted.as_str(), node),
                None => false,
            },
            None => true,
        };
        same(self.capability.as_str(), capability) && glob_matches(self.target.as_str(), target)
            && from
    }
}

/// One rule, and how often it has answered.
#[derive(Debug, PartialEq, Eq)]
pub struct Rule {
    pub matcher: Matcher,
    pub respond: Respond,
    pub hits: usize,
}

#[verifier::ext_equal]
pub struct RuleView {
    pub matcher: MatcherView,
    pub respond: Respond,
    pub hits: usize,
}

impl View for Rule {
    type V = RuleView;

    open spec fn view(&self) -> RuleView {
        RuleView { matcher: self.matcher@, respond: self.respond, hits: self.hits }
    }
}

/// A programmable, recording set of stand-ins.
#[derive(Debug, PartialEq, Eq)]
pub struct MockCaps {
    rules: Vec<Rule>,
    log: CallLog,
    workflows: Vec<(String, WorkflowGraph)>,
}

#[verifier::ext_equal]
pub struct MockView {
    pub rules: Seq<RuleView>,
    pub log: Seq<CallView>,
    pub workflows: Seq<(Seq<char>, GraphView)>,
}

/// The registered workflows, by id.
pub open spec fn workflow_views(workflows: Seq<(String, WorkflowGraph)>) -> Seq<
    (Seq<char>, GraphView),
> {
    Seq::new(workflows.len(), |i: int| (workflows[i].0@, workflows[i].1@))
}

impl View for MockCaps {
    type V = MockView;

    closed spec fn view(&self) -> MockView {
        MockView {
            rules: views(self.rules@),
            log: self.log@,
            workflows: workflow_views(self.workflows@),
        }
    }
}

/// The workflows with one registered: in the place of one under the same id,
/// and else at the end.
pub open spec fn with_graph(
    workflows: Seq<(Seq<char>, GraphView)>,
    id: Seq<char>,
    graph: GraphView,
) -> Seq<(Seq<char>, GraphView)>
    decreases workflows.len(),
{
    if workflows.len() == 0 {
        seq![(id, graph)]
    } else if workflows[0].0 == id {
        seq![(id, graph)] + workflows.drop_first()
    } else {
        seq![workflows[0]] + with_graph(workflows.drop_first(), id, graph)
    }
}

/// The workflow registered under an id.
pub open spec fn graph_under(workflows: Seq<(Seq<char>, GraphView)>, id: Seq<char>) -> Option<
    GraphView,
>
    decreases workflows.len(),
{
    if workflows.len() == 0 {
        None
    } else if workflows[0].0 == id {
        Some(workflows[0].1)
    } else {
        graph_under(workflows.drop_first(), id)
    }
}

/// A rule that has not answered yet, and takes calls from any node.
pub open spec fn new_rule(capability: Seq<char>, target: Seq<char>, respond: Respond) -> RuleView {
    RuleView {
        matcher: MatcherView { capability, target, node_id: None },
        respond,
        hits: 0,
    }
}

/// The first rule at or after `from` that applies to a call.
pub open spec fn first_rule(
    rules: Seq<RuleView>,
    from: int,
    capability: Seq<char>,
    target: Seq<char>,
    node_id: Option<Seq<char>>,
) -> Option<int>
    decreases rules.len() - from,
{
    if from < 0 || from >= rules.len() {
        None
    } else if rules[from].matcher.applies(capability, target, node_id) {
        Some(from)
    } else {
        first_rule(rules, from + 1, capability, target, node_id)
    }
}

/// A count that stays where it cannot grow.
pub open spec fn one_more(hits: usize) -> usize {
    if hits < usize::MAX {
        (hits + 1) as usize
    } else {
        hits
    }
}

/// A call that has been answered. It is not over before the answer has been
/// waited for.
#[derive(Debug, PartialEq, Eq)]
pub struct OpenCall {
    pub capability: String,
    pub method: String,
    pub node_id: Option<String>,
    pub target: String,
    pub args: Json,
    pub answer: Answer,
}

#[verifier::ext_equal]
pub struct OpenCallView {
    pub capability: Seq<char>,
    pub method: Seq<char>,
    pub node_id: Option<Seq<char>>,
    pub target: Seq<char>,
    pub args: JsonView,
    pub answer: AnswerView,
}

impl View for OpenCall {
    type V = OpenCallView;

    open spec fn view(&self) -> OpenCallView {
        OpenCallView {
            capability: self.capability@,
            method: self.method@,
            node_id: opt_view(self.node_id),
            target: self.target@,
            args: self.args@,
            answer: self.answer@,
        }
    }
}

/// A call: what it is answered, and what the stand-ins hold while the answer is
/// waited for.
pub open spec fn asked(
    before: MockView,
    node_id: Option<Seq<char>>,
    capability: Seq<char>,
    method: Seq<char>,
    target: Seq<char>,
    request: JsonView,
    default: JsonView,
) -> (OpenCallView, MockView) {
    let rule = first_rule(before.rules, 0, capability, target, node_id);
    let answer = match rule {
        Some(i) => before.rules[i].respond.answers(before.rules[i].hits as nat, default),
        None => at_once(Ok(default)),
    };
    let after = MockView {
        rules: match rule {
            Some(i) => before.rules.update(
                i,
                RuleView { hits: one_more(before.rules[i].hits), ..before.rules[i] },
            ),
            None => before.rules,
        },
        ..before
    };
    (OpenCallView { capability, method, node_id, target, args: request, answer }, after)
}

/// The stand-ins after a call is over: it is logged last, under the next number.
pub open spec fn settled(before: MockView, call: OpenCallView) -> MockView {
    MockView {
        log: before.log.push(
            CallView {
                seq: before.log.len() as u64,
                capability: call.capability,
                method: call.method,
                node_id: call.node_id,
                target: call.target,
                args: call.args,
                outcome: call.answer.outcome,
            },
        ),
        ..before
    }
}

impl MockCaps {
    /// Stand-ins with no rules: every call is echoed, and logged once it is over.
    pub fn new() -> (r: Self)
        ensures
            r@ == (MockView {
                rules: Seq::empty(),
                log: Seq::empty(),
                workflows: Seq::empty(),
            }),
    {
        let r = MockCaps { rules: Vec::new(), log: CallLog::new(), workflows: Vec::new() };
        assert(r@.rules =~= Seq::empty());
        assert(r@.workflows =~= Seq::empty());
        r
    }

    /// The log of the calls.
    pub fn log(&self) -> (r: &CallLog)
        ensures
            r@ == self@.log,
    {
        &self.log
    }

    fn rule(self, capability: &str, target: &str, respond: Respond) -> (r: Self)
        ensures
            r@ == (MockView {
                rules: self@.rules.push(new_rule(capability@, target@, respond)),
                ..self@
            }),
    {
        let ghost before = self@;
        let mut out = self;
        let rule = Rule {
            matcher: Matcher {
                capability: capability.to_owned(),
                target: target.to_owned(),
                node_id: None,
            },
            respond,
            hits: 0,
        };
        out.rules.push(rule);
        assert(out@.rules =~= before.rules.push(rule@));
        out
    }

    /// Answers the tools whose slug matches a glob.
    pub fn on_tool(self, slug: &str, respond: Respond) -> (r: Self)
        ensures
            r@ == (MockView {
                rules: self@.rules.push(new_rule(TOOLS@, slug@, respond)),
                ..self@
            }),
    {
        self.rule(TOOLS, slug, respond)
    }

    /// Answers the requests whose address matches a glob.
    pub fn on_http(self, url: &str, respond: Respond) -> (r: Self)
        ensures
            r@ == (MockView {
                rules: self@.rules.push(new_rule(HTTP@, url@, respond)),
                ..self@
            }),
    {
        self.rule(HTTP, url, respond)
    }

    /// Answers completions.
    pub fn on_llm(self, respond: Respond) -> (r: Self)
        ensures
            r@ == (MockView {
                rules: self@.rules.push(new_rule(LLM@, "*"@, respond)),
                ..self@
            }),
    {
        self.rule(LLM, "*", respond)
    }

    /// Answers the agents whose name matches a glob.
    pub fn on_agent(self, agent_ref: &str, respond: Respond) -> (r: Self)
        ensures
            r@ == (MockView {
                rules: self@.rules.push(new_rule(AGENT@, agent_ref@, respond)),
                ..self@
            }),
    {
        self.rule(AGENT, agent_ref, respond)
    }

    /// Answers code runs.
    pub fn on_code(self, respond: Respond) -> (r: Self)
        ensures
            r@ == (MockView {
                rules: self@.rules.push(new_rule(CODE@, "*"@, respond)),
                ..self@
            }),
    {
        self.rule(CODE, "*", respond)
    }

    /// Answers shell runs.
    pub fn on_shell(self, respond: Respond) -> (r: Self)
        ensures
            r@ == (MockView {
                rules: self@.rules.push(new_rule(SHELL@, "*"@, respond)),
                ..self@
            }),
    {
        self.rule(SHELL, "*", respond)
    }

    /// Holds the latest rule to calls from one node; nothing where there is no
    /// rule yet.
    pub fn only_from(self, node_id: &str) -> (r: Self)
        ensures
            r@ == (if self@.rules.len() == 0 {
                self@
            } else {
                let last = self@.rules.last();
                MockView {
                    rules: self@.rules.update(
                        self@.rules.len() - 1,
                        RuleView {
                            matcher: MatcherView { node_id: Some(node_id@), ..last.matcher },
                            ..last
                        },
                    ),
                    ..self@
                }
            }),
    {
        let ghost before = self@;
        let mut out = self;
        let n: usize = out.rules.len();
        if n > 0 {
            assert(before.rules.last() == out.rules@[n - 1]@);
            let last = out.rules.remove(n - 1);
            let held = Rule {
                matcher: Matcher {
                    capability: last.matcher.capability,
                    target: last.matcher.target,
                    node_id: Some(node_id.to_owned()),
                },
                respond: last.respond,
                hits: last.hits,
            };
            out.rules.push(held);
            assert(out@.rules =~= before.rules.update(n - 1, held@));
        }
        out
    }

    /// Registers a workflow, in the place of one under the same id.
    pub fn with_workflow(self, id: &str, graph: WorkflowGraph) -> (r: Self)
        ensures
            r@ == (MockView {
                workflows: with_graph(self@.workflows, id@, graph@),
                ..self@
            }),
    {
        let ghost before = self@;
        let mut out = self;
        let ghost known = before.workflows;
        let mut i: usize = 0;
        let n: usize = out.workflows.len();
        assert(known.take(0) =~= Seq::empty());
        assert(known.skip(0) =~= known);
        assert(known.take(0) + with_graph(known.skip(0), id@, graph@) =~= with_graph(
            known,
            id@,
            graph@,
        ));
        while i < n
            invariant
                i <= n,
                n == out.workflows@.len(),
                out@ == before,
                before == self@,
                known == workflow_views(out.workflows@),
                with_graph(known, id@, graph@) == known.take(i as int) + with_graph(
                    known.skip(i as int),
                    id@,
                    graph@,
                ),
            decreases n - i,
        {
            let ghost tail = known.skip(i as int);
            assert(tail[0] == (out.workflows@[i as int].0@, out.workflows@[i as int].1@));
            assert(tail.drop_first() =~= known.skip(i + 1));
            if same(out.workflows[i].0.as_str(), id) {
                out.workflows.set(i, (id.to_owned(), graph));
                proof {
                    assert(out@.workflows =~= known.take(i as int) + (seq![(id@, graph@)]
                        + tail.drop_first()));
                }
                return out;
            }
            proof {
                assert(known.take(i + 1) =~= known.take(i as int) + seq![tail[0]]);
                assert(known.take(i as int) + (seq![tail[0]] + with_graph(
                    known.skip(i + 1),
                    id@,
                    graph@,
                )) =~= known.take(i + 1) + with_graph(known.skip(i + 1), id@, graph@));
            }
            i = i + 1;
        }
        proof {
            assert(known.skip(i as int) =~= Seq::empty());
            assert(known.take(i as int) =~= known);
        }
        out.workflows.push((id.to_owned(), graph));
        assert(out@.workflows =~= known + seq![(id@, graph@)]);
        out
    }

    /// The workflow registered under an id.
    pub fn resolve(&self, workflow_id: &str) -> (r: Result<&WorkflowGraph, String>)
        ensures
            match graph_under(self@.workflows, workflow_id@) {
                Some(graph) => r matches Ok(found) && found@ == graph,
                None => r matches Err(message) && message@ == "testkit: no workflow registered as "@
                    + debug_text(workflow_id@),
            },
    {
        let ghost known = self@.workflows;
        let mut i: usize = 0;
        assert(known.skip(0) =~= known);
        while i < self.workflows.len()
            invariant
                i <= self.workflows@.len(),
                known == workflow_views(self.workflows@),
                graph_under(known, workflow_id@) == graph_under(
                    known.skip(i as int),
                    workflow_id@,
                ),
            decreases self.workflows@.len() - i,
        {
            assert(known.skip(i as int)[0] == (
                self.workflows@[i as int].0@,
                self.workflows@[i as int].1@,
            ));
            assert(known.skip(i as int).drop_first() =~= known.skip(i + 1));
            if same(self.workflows[i].0.as_str(), workflow_id) {
                return Ok(&self.workflows[i].1);
            }
            i = i + 1;
        }
        assert(known.skip(i as int) =~= Seq::empty());
        let mut message = "testkit: no workflow registered as ".to_owned();
        let shown = quoted(workflow_id);
        message.append(shown.as_str());
        Err(message)
    }

    /// The answer of the first rule that applies, counted; nothing where none
    /// does.
    fn respond_to(
        &mut self,
        capability: &str,
        target: &str,
        node_id: Option<&str>,
        echo: &Json,
    ) -> (r: Option<Answer>)
        ensures
            match first_rule(old(self)@.rules, 0, capability@, target@, opt_str(node_id)) {
                Some(i) => {
                    &&& r matches Some(answer) && answer@ == old(self)@.rules[i].respond.answers(
                        old(self)@.rules[i].hits as nat,
                        echo@,
                    )
                    &&& final(self)@ == (MockView {
                        rules: old(self)@.rules.update(
                            i,
                            RuleView {
                                hits: one_more(old(self)@.rules[i].hits),
                                ..old(self)@.rules[i]
                            },
                        ),
                        ..old(self)@
                    })
                },
                None => r is None && final(self)@ == old(self)@,
            },
    {
        let ghost before = self@;
        let mut i: usize = 0;
        while i < self.rules.len()
            invariant
                i <= self.rules@.len(),
                self@ == before,
                before == old(self)@,
                first_rule(before.rules, 0, capability@, target@, opt_str(node_id)) == first_rule(
                    before.rules,
                    i as int,
                    capability@,
                    target@,
                    opt_str(node_id),
                ),
            decreases self.rules@.len() - i,
        {
            assert(before.rules[i as int] == self.rules@[i as int]@);
            if self.rules[i].matcher.matches(capability, target, node_id) {
                let hits: usize = self.rules[i].hits;
                let answer = self.rules[i].respond.answer(hits, echo);
                if hits < usize::MAX {
                    self.rules[i].hits = hits + 1;
                }
                assert(self@.rules =~= before.rules.update(
                    i as int,
                    RuleView { hits: one_more(hits), ..before.rules[i as int] },
                ));
                return Some(answer);
            }
            i = i + 1;
        }
        None
    }

    /// Makes a call: consults the rules, and says what the answer is. The call
    /// is over, and logged, once [`MockCaps::settle`] is told so.
    pub fn ask(
        &mut self,
        node_id: Option<&str>,
        capability: &str,
        method: &str,
        target: &str,
        request: Json,
        default: Json,
    ) -> (r: OpenCall)
        ensures
            (r@, final(self)@) == asked(
                old(self)@,
                opt_str(node_id),
                capability@,
                method@,
                target@,
                request@,
                default@,
            ),
    {
        let answer = match self.respond_to(capability, target, node_id, &default) {
            Some(answer) => answer,
            None => {
                let r = Answer { waits: Vec::new(), outcome: CallOutcome::Returned(default) };
                assert(r@.waits =~= Seq::empty());
                r
            },
        };
        let caller = match node_id {
            Some(node) => Some(node.to_owned()),
            None => None,
        };
        OpenCall {
            capability: capability.to_owned(),
            method: method.to_owned(),
            node_id: caller,
            target: target.to_owned(),
            args: request,
            answer,
        }
    }

    /// Ends a call whose answer has been waited for: logs it, and hands over
    /// how it ended.
    pub fn settle(&mut self, call: OpenCall) -> (r: CallOutcome)
        ensures
            r == call.answer.outcome,
            final(self)@ == settled(old(self)@, call@),
    {
        let outcome = match &call.answer.outcome {
            CallOutcome::Returned(value) => CallOutcome::Returned(value.clone()),
            CallOutcome::Failed(message) => CallOutcome::Failed(message.clone()),
        };
        let ghost before = self@;
        self.log.record(
            call.capability.as_str(),
            call.method.as_str(),
            call.node_id,
            call.target.as_str(),
            call.args,
            outcome,
        );
        assert(self@.rules == before.rules);
        assert(self@.workflows == before.workflows);
        call.answer.outcome
    }
}

/// The stand-ins after a call that no rule is asked about was logged.
pub open spec fn logged(
    before: MockView,
    node_id: Option<Seq<char>>,
    capability: Seq<char>,
    method: Seq<char>,
    target: Seq<char>,
    args: JsonView,
    outcome: JsonView,
) -> MockView {
    MockView {
        log: before.log.push(
            CallView {
                seq: before.log.len() as u64,
                capability,
                method,
                node_id,
                target,
                args,
                outcome: Ok(outcome),
            },
        ),
        ..before
    }
}

impl MockCaps {
    /// Logs a call that no rule is asked about.
    pub fn note(
        &mut self,
        node_id: Option<&str>,
        capability: &str,
        method: &str,
        target: &str,
        args: Json,
        outcome: Json,
    )
        ensures
            final(self)@ == logged(
                old(self)@,
                opt_str(node_id),
                capability@,
                method@,
                target@,
                args@,
                outcome@,
            ),
    {
        let caller = match node_id {
            Some(node) => Some(node.to_owned()),
            None => None,
        };
        let ghost before = self@;
        self.log.record(capability, method, caller, target, args, CallOutcome::Returned(outcome));
        assert(self@.rules == before.rules);
        assert(self@.workflows == before.workflows);
    }
}

/// The number of a call never repeats: each call is logged under its own
/// position.
pub open spec fn numbered(log: Seq<CallView>) -> bool {
    forall|i: int| 0 <= i < log.len() ==> (#[trigger] log[i]).seq == i as u64
}

/// A call that is over is logged once, last, under its own number, with what it
/// was answered; and one that is not has left no trace in the log.
pub proof fn ended_calls_are_logged(
    before: MockView,
    node_id: Option<Seq<char>>,
    capability: Seq<char>,
    method: Seq<char>,
    target: Seq<char>,
    request: JsonView,
    default: JsonView,
)
    requires
        numbered(before.log),
    ensures
        ({
            let (call, open) = asked(
                before,
                node_id,
                capability,
                method,
                target,
                request,
                default,
            );
            let after = settled(open, call);
            &&& open.log == before.log
            &&& numbered(after.log)
            &&& after.log.drop_last() == before.log
            &&& after.log.last().outcome == call.answer.outcome
            &&& after.log.last().args == request
        }),
{
    let (call, open) = asked(before, node_id, capability, method, target, request, default);
    assert(settled(open, call).log.drop_last() =~= before.log);
}

/// Calls are numbered in the order in which they end, whichever began first.
pub proof fn calls_are_numbered_as_they_end(
    before: MockView,
    first: OpenCallView,
    second: OpenCallView,
)
    requires
        before.log.len() + 1 <= u64::MAX,
    ensures
        ({
            let log = settled(settled(before, first), second).log;
            let n = before.log.len() as int;
            &&& log.len() == n + 2
            &&& log[n].seq == n && log[n].target == first.target
            &&& log[n + 1].seq == n + 1 && log[n + 1].target == second.target
        }),
{
}

proof fn lemma_first_rule(
    rules: Seq<RuleView>,
    from: int,
    capability: Seq<char>,
    target: Seq<char>,
    node_id: Option<Seq<char>>,
)
    requires
        0 <= from,
    ensures
        match first_rule(rules, from, capability, target, node_id) {
            Some(i) => from <= i < rules.len() && rules[i].matcher.applies(
                capability,
                target,
                node_id,
            ) && (forall|k: int|
                from <= k < i ==> !(#[trigger] rules[k]).matcher.applies(
                    capability,
                    target,
                    node_id,
                )),
            None => forall|k: int|
                from <= k < rules.len() ==> !(#[trigger] rules[k]).matcher.applies(
                    capability,
                    target,
                    node_id,
                ),
        },
    decreases rules.len() - from,
{
    if from < rules.len() && !rules[from].matcher.applies(capability, target, node_id) {
        lemma_first_rule(rules, from + 1, capability, target, node_id);
    }
}

/// The first rule that applies answers: a rule written before another shadows
/// it, whatever the other says.
pub proof fn first_matching_rule_wins(
    before: MockView,
    i: int,
    node_id: Option<Seq<char>>,
    capability: Seq<char>,
    method: Seq<char>,
    target: Seq<char>,
    request: JsonView,
    default: JsonView,
)
    requires
        0 <= i < before.rules.len(),
        before.rules[i].matcher.applies(capability, target, node_id),
        forall|k: int|
            0 <= k < i ==> !(#[trigger] before.rules[k]).matcher.applies(
                capability,
                target,
                node_id,
            ),
    ensures
        asked(before, node_id, capability, method, target, request, default).0.answer
            == before.rules[i].respond.answers(before.rules[i].hits as nat, default),
{
    lemma_first_rule(before.rules, 0, capability, target, node_id);
}

/// A call that no rule applies to is answered by the echo, never by a failure.
pub proof fn unprogrammed_calls_are_echoed(
    before: MockView,
    node_id: Option<Seq<char>>,
    capability: Seq<char>,
    method: Seq<char>,
    target: Seq<char>,
    request: JsonView,
    default: JsonView,
)
    requires
        forall|k: int|
            0 <= k < before.rules.len() ==> !(#[trigger] before.rules[k]).matcher.applies(
                capability,
                target,
                node_id,
            ),
    ensures
        asked(before, node_id, capability, method, target, request, default).0.answer == at_once(
            Ok(default),
        ),
{
    lemma_first_rule(before.rules, 0, capability, target, node_id);
}

/// A sequence does not run out: every call past its end is answered as its
/// last entry answers it.
pub proof fn sequences_repeat_their_last(entries: Vec<Respond>, hit: nat, echo: JsonView)
    requires
        entries@.len() > 0,
        hit >= entries@.len(),
    ensures
        Respond::Sequence(entries).answers(hit, echo) == entries@[entries@.len()
            - 1].answers(hit, echo),
{
}

} // verus!
