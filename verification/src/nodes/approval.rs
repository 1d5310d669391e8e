//! The `approval` node: put something in front of a human, route on their
//! answer.
//!
//! A decision can come, in this order, from the resume value, from the run's
//! approvals list, or from the host's approval provider. Where nobody has
//! decided, the node suspends the run or spends a poll.
use vstd::prelude::*;

use crate::data::{first_json, first_payload, plain_item, Item};
use crate::json::{
    count_json, member, members, object, opt_text, text_array, text_json, text_or_null, texts_json,
    Json, JsonView, NumberView,
};
use crate::nodes::approval_request::{
    build_request, decided_item, decided_json, decision_meta, decision_record, delivered,
    delivered_decision, request_of, ApprovalDecision, ApprovalRequest, DecisionView, RequestView,
};
use crate::nodes::{
    main_output, ContextView, EngineError, EngineErrorView, NodeContext, NodeControlView,
    NodeOutput, NodeOutputView, NullResolution, NullResolutionView,
};
use crate::text::{debug_text, decimal, decimal_text, lemma_views_push, opt_view, quoted, same, views};

verus! {

broadcast use lemma_views_push;

/// Gap between polls where none is configured, in milliseconds.
pub const DEFAULT_POLL_INTERVAL_MS: u64 = 1000;

/// Polls before the wait is called spent, where no number is configured.
pub const DEFAULT_MAX_POLLS: u64 = 60;

/// How the node waits for a human.
#[derive(Debug, Clone, Copy, PartialEq, Eq, Structural)]
pub enum WaitMode {
    /// Interrupt the run; the host resumes it when the answer lands.
    Suspend,
    /// Run again on an interval and ask again.
    Poll,
}

pub open spec fn wait_mode_of(config: JsonView) -> WaitMode {
    if config.text_at("wait_mode"@) == Some("poll"@) {
        WaitMode::Poll
    } else {
        WaitMode::Suspend
    }
}

fn config_is(config: &Json, key: &str, text: &str) -> (r: bool)
    ensures
        r == (config@.text_at(key@) == Some(text@)),
{
    match config.text_at(key) {
        Some(value) => same(value, text),
        None => false,
    }
}

impl WaitMode {
    /// The configured mode; anything unrecognised suspends.
    pub fn from_config(config: &Json) -> (r: Self)
        ensures
            r == wait_mode_of(config@),
    {
        if config_is(config, "wait_mode", "poll") {
            WaitMode::Poll
        } else {
            WaitMode::Suspend
        }
    }
}

/// What a rejection does to the graph.
#[derive(Debug, Clone, Copy, PartialEq, Eq, Structural)]
pub enum OnReject {
    /// Emit the verdict on the `rejected` port.
    Route,
    /// Fail the node.
    Error,
    /// Emit nothing.
    Drop,
}

pub open spec fn on_reject_of(config: JsonView) -> OnReject {
    if config.text_at("on_reject"@) == Some("error"@) {
        OnReject::Error
    } else if config.text_at("on_reject"@) == Some("drop"@) {
        OnReject::Drop
    } else {
        OnReject::Route
    }
}

impl OnReject {
    /// The configured policy; anything unrecognised routes.
    pub fn from_config(config: &Json) -> (r: Self)
        ensures
            r == on_reject_of(config@),
    {
        if config_is(config, "on_reject", "error") {
            OnReject::Error
        } else if config_is(config, "on_reject", "drop") {
            OnReject::Drop
        } else {
            OnReject::Route
        }
    }
}

/// What a spent poll budget does.
#[derive(Debug, Clone, Copy, PartialEq, Eq, Structural)]
pub enum OnTimeout {
    /// Fail the node.
    Error,
    /// Treat silence as a rejection.
    Reject,
    /// Emit on the `timeout` port.
    Route,
}

pub open spec fn on_timeout_of(config: JsonView) -> OnTimeout {
    if config.text_at("on_timeout"@) == Some("reject"@) {
        OnTimeout::Reject
    } else if config.text_at("on_timeout"@) == Some("route"@) {
        OnTimeout::Route
    } else {
        OnTimeout::Error
    }
}

impl OnTimeout {
    /// The configured policy; anything unrecognised fails the node.
    pub fn from_config(config: &Json) -> (r: Self)
        ensures
            r == on_timeout_of(config@),
    {
        if config_is(config, "on_timeout", "reject") {
            OnTimeout::Reject
        } else if config_is(config, "on_timeout", "route") {
            OnTimeout::Route
        } else {
            OnTimeout::Error
        }
    }
}

/// A positive integer under `key`, or else the default.
pub open spec fn positive_of(config: JsonView, key: Seq<char>, default: u64) -> u64 {
    match config.at(key).as_u64() {
        Some(n) => if n > 0 {
            n
        } else {
            default
        },
        None => default,
    }
}

/// Reads a positive integer field, falling back to `default`.
pub fn positive_u64(config: &Json, key: &str, default: u64) -> (r: u64)
    ensures
        r == positive_of(config@, key@, default),
{
    match config.get(key) {
        Some(value) => match value.as_u64() {
            Some(n) => if n > 0 {
                n
            } else {
                default
            },
            None => default,
        },
        None => default,
    }
}

/// What the host said of a review.
#[derive(Debug, PartialEq, Eq)]
pub enum ApprovalOutcome {
    Decided(ApprovalDecision),
    Pending,
}

#[verifier::ext_equal]
pub enum OutcomeView {
    Decided(DecisionView),
    Pending,
}

impl View for ApprovalOutcome {
    type V = OutcomeView;

    open spec fn view(&self) -> OutcomeView {
        match *self {
            ApprovalOutcome::Decided(decision) => OutcomeView::Decided(decision@),
            ApprovalOutcome::Pending => OutcomeView::Pending,
        }
    }
}

/// What the node does next.
#[derive(Debug, PartialEq, Eq)]
pub enum ApprovalStep {
    /// Ask the host's provider about this review, and come back with its
    /// answer; with no provider, come back with a pending one.
    Ask(ApprovalRequest),
    /// Hand back this result, after withdrawing the review from the provider
    /// where a reason to do so is given. A withdrawal that fails changes
    /// nothing.
    Finish { withdraw: Option<Withdrawal>, result: Result<NodeOutput, EngineError> },
}

/// A review to be taken back from the provider.
#[derive(Debug, PartialEq, Eq)]
pub struct Withdrawal {
    pub request_id: String,
    pub reason: String,
}

#[verifier::ext_equal]
pub struct WithdrawalView {
    pub request_id: Seq<char>,
    pub reason: Seq<char>,
}

impl View for Withdrawal {
    type V = WithdrawalView;

    open spec fn view(&self) -> WithdrawalView {
        WithdrawalView { request_id: self.request_id@, reason: self.reason@ }
    }
}

#[verifier::ext_equal]
pub enum StepView {
    Ask(RequestView),
    Finish {
        withdraw: Option<WithdrawalView>,
        result: Result<NodeOutputView, EngineErrorView>,
    },
}

/// A result by its views.
pub open spec fn result_view(result: Result<NodeOutput, EngineError>) -> Result<
    NodeOutputView,
    EngineErrorView,
> {
    match result {
        Ok(out) => Ok(out@),
        Err(error) => Err(error@),
    }
}

impl View for ApprovalStep {
    type V = StepView;

    open spec fn view(&self) -> StepView {
        match *self {
            ApprovalStep::Ask(request) => StepView::Ask(request@),
            ApprovalStep::Finish { withdraw, result } => StepView::Finish {
                withdraw: opt_view(withdraw),
                result: result_view(result),
            },
        }
    }
}

/// What is said of a rejection: who decided, and why where that is known.
pub open spec fn rejected_reason(id: Seq<char>, decision: DecisionView) -> Seq<char> {
    "approval node "@ + debug_text(id) + ": rejected by "@ + (match decision.decided_by {
        Some(name) => name,
        None => "an approver"@,
    }) + (match decision.comment {
        Some(comment) => " ("@ + comment + ")"@,
        None => Seq::empty(),
    })
}

/// The result of a decided review.
pub open spec fn settled(
    ctx: ContextView,
    config: JsonView,
    request: RequestView,
    decision: DecisionView,
    diagnostics: Seq<NullResolutionView>,
) -> Result<NodeOutputView, EngineErrorView> {
    let item = plain_item(decided_json(request, decision, first_json(ctx.input)));
    let base = NodeOutputView {
        items: seq![item],
        port: None,
        diagnostics,
        transcript: Seq::empty(),
        meta: Some(decision_record(decision, request)),
        control: None,
    };
    if decision.approved {
        Ok(NodeOutputView { port: Some("approved"@), ..base })
    } else {
        match on_reject_of(config) {
            OnReject::Route => Ok(NodeOutputView { port: Some("rejected"@), ..base }),
            OnReject::Drop => Ok(NodeOutputView { items: Seq::empty(), ..base }),
            OnReject::Error => Err(
                EngineErrorView::Capability(rejected_reason(ctx.node.id, decision)),
            ),
        }
    }
}

/// Turns a decision into the node's result: approved and rejected reviews each
/// leave by their own port, as the rejection policy says.
pub fn settle(
    ctx: &NodeContext,
    config: &Json,
    request: &ApprovalRequest,
    decision: &ApprovalDecision,
    diagnostics: Vec<NullResolution>,
) -> (r: Result<NodeOutput, EngineError>)
    ensures
        result_view(r) == settled(ctx@, config@, request@, decision@, views(diagnostics@)),
{
    let meta = decision_meta(decision, request);
    let port = if decision.approved {
        "approved"
    } else {
        match OnReject::from_config(config) {
            OnReject::Route => "rejected",
            OnReject::Drop => {
                return Ok(NodeOutput::empty().with_meta(meta).with_diagnostics(diagnostics));
            },
            OnReject::Error => {
                let mut reason = "approval node ".to_owned();
                reason.append(quoted(ctx.node.id.as_str()).as_str());
                reason.append(": rejected by ");
                match &decision.decided_by {
                    Some(name) => reason.append(name.as_str()),
                    None => reason.append("an approver"),
                }
                let comment = match &decision.comment {
                    Some(comment) => {
                        let mut text = " (".to_owned();
                        text.append(comment.as_str());
                        text.append(")");
                        text
                    },
                    None => String::new(),
                };
                reason.append(comment.as_str());
                return Err(EngineError::Capability(reason));
            },
        }
    };
    let mut items: Vec<Item> = Vec::new();
    let input = first_payload(ctx.input.as_slice());
    items.push(decided_item(request, decision, input));
    assert(views(items@) =~= seq![
        plain_item(decided_json(request@, decision@, first_json(ctx@.input))),
    ]);
    Ok(NodeOutput::routed(items, port).with_meta(meta).with_diagnostics(diagnostics))
}

/// What the host shows of a suspended review.
pub open spec fn interrupt_payload(request: RequestView) -> JsonView {
    JsonView::Object(
        seq![
            ("kind"@, JsonView::String("approval"@)),
            ("node"@, JsonView::String(request.node_id)),
            ("request_id"@, JsonView::String(request.request_id)),
            ("title"@, text_or_null(request.title)),
            ("prompt"@, text_or_null(request.prompt)),
            ("subject"@, request.subject),
            ("subject_kind"@, JsonView::String(request.subject_kind)),
            ("assignees"@, texts_json(request.assignees)),
            ("metadata"@, request.metadata),
        ],
    )
}

fn suspension(request: &ApprovalRequest) -> (r: Json)
    ensures
        r@ == interrupt_payload(request@),
{
    let ghost shown = interrupt_payload(request@)->Object_0;
    let mut entries: Vec<(String, Json)> = Vec::new();
    entries.push(member("kind", text_json("approval")));
    entries.push(member("node", text_json(request.node_id.as_str())));
    entries.push(member("request_id", text_json(request.request_id.as_str())));
    entries.push(member("title", opt_text(&request.title)));
    entries.push(member("prompt", opt_text(&request.prompt)));
    entries.push(member("subject", request.subject.value.clone()));
    entries.push(member("subject_kind", text_json(request.subject.kind.as_str())));
    entries.push(member("assignees", text_array(&request.assignees)));
    entries.push(member("metadata", request.metadata.clone()));
    assert(members(entries@) =~= shown);
    object(entries)
}

/// How many polls this node has spent.
pub open spec fn polls_spent(ctx: ContextView) -> u64 {
    match ctx.nodes.at(ctx.node.id).at("polls"@).as_u64() {
        Some(n) => n,
        None => 0,
    }
}

fn spent_polls(ctx: &NodeContext) -> (r: u64)
    ensures
        r == polls_spent(ctx@),
{
    match ctx.nodes.get(ctx.node.id.as_str()) {
        Some(slot) => match slot.get("polls") {
            Some(value) => match value.as_u64() {
                Some(n) => n,
                None => 0,
            },
            None => 0,
        },
        None => 0,
    }
}

pub open spec fn poll_meta(polls: u64, request_id: Seq<char>) -> JsonView {
    JsonView::Object(
        seq![
            ("polls"@, JsonView::Number(NumberView::PosInt((polls + 1) as u64))),
            ("request_id"@, JsonView::String(request_id)),
        ],
    )
}

pub open spec fn silence(max_polls: u64) -> Seq<char> {
    "no decision after "@ + decimal(max_polls as nat) + " polls"@
}

/// The payload of a review that nobody answered.
pub open spec fn timed_out_json(
    request: RequestView,
    max_polls: u64,
    input: JsonView,
) -> JsonView {
    JsonView::Object(
        seq![
            ("approved"@, JsonView::Bool(false)),
            ("timed_out"@, JsonView::Bool(true)),
            ("request_id"@, JsonView::String(request.request_id)),
            ("subject"@, request.subject),
            ("subject_kind"@, JsonView::String(request.subject_kind)),
            ("edited"@, JsonView::Bool(false)),
            ("decided_by"@, JsonView::Null),
            ("comment"@, JsonView::String(silence(max_polls))),
            ("input"@, input),
        ],
    )
}

/// What a review that nobody answered records about itself.
pub open spec fn timeout_meta(polls: u64, request_id: Seq<char>, max_polls: u64) -> JsonView {
    JsonView::Object(
        seq![
            ("polls"@, JsonView::Number(NumberView::PosInt((polls + 1) as u64))),
            ("request_id"@, JsonView::String(request_id)),
            (
                "decision"@,
                JsonView::Object(
                    seq![
                        ("approved"@, JsonView::Bool(false)),
                        ("timed_out"@, JsonView::Bool(true)),
                        ("decided_by"@, JsonView::Null),
                        ("comment"@, JsonView::String(silence(max_polls))),
                        ("request_id"@, JsonView::String(request_id)),
                    ],
                ),
            ),
        ],
    )
}

pub open spec fn timeout_error(id: Seq<char>, max_polls: u64) -> Seq<char> {
    "approval node "@ + debug_text(id) + ": no decision after "@ + decimal(max_polls as nat)
        + " polls; raise `max_polls`/`poll_interval_ms`, switch to `wait_mode: \"suspend\"`, or wire a `timeout` port"@
}

pub open spec fn timeout_reject_error(id: Seq<char>, max_polls: u64) -> Seq<char> {
    "approval node "@ + debug_text(id) + ": no decision after "@ + decimal(max_polls as nat)
        + " polls, and `on_timeout: \"reject\"` with `on_reject: \"error\"` fails the node"@
}

/// The result of a wait whose polls are spent.
pub open spec fn timed_out(
    ctx: ContextView,
    config: JsonView,
    request: RequestView,
) -> Result<NodeOutputView, EngineErrorView> {
    let max_polls = positive_of(config, "max_polls"@, DEFAULT_MAX_POLLS);
    let base = NodeOutputView {
        meta: Some(timeout_meta(polls_spent(ctx), request.request_id, max_polls)),
        ..main_output(
            seq![plain_item(timed_out_json(request, max_polls, first_json(ctx.input)))],
        )
    };
    match on_timeout_of(config) {
        OnTimeout::Error => Err(
            EngineErrorView::Capability(timeout_error(ctx.node.id, max_polls)),
        ),
        OnTimeout::Route => Ok(NodeOutputView { port: Some("timeout"@), ..base }),
        OnTimeout::Reject => match on_reject_of(config) {
            OnReject::Route => Ok(NodeOutputView { port: Some("rejected"@), ..base }),
            OnReject::Drop => Ok(NodeOutputView { items: Seq::empty(), ..base }),
            OnReject::Error => Err(
                EngineErrorView::Capability(timeout_reject_error(ctx.node.id, max_polls)),
            ),
        },
    }
}

/// What a node does while nobody has decided: suspend the run, spend a poll,
/// or, once the polls are spent, withdraw the review and give up on it.
pub open spec fn waiting(ctx: ContextView, config: JsonView, request: RequestView) -> StepView {
    if wait_mode_of(config) == WaitMode::Suspend {
        StepView::Finish {
            withdraw: None,
            result: Ok(
                NodeOutputView {
                    control: Some(
                        NodeControlView::Interrupt {
                            id: ctx.node.id,
                            payload: interrupt_payload(request),
                        },
                    ),
                    ..main_output(Seq::empty())
                },
            ),
        }
    } else if polls_spent(ctx) < positive_of(config, "max_polls"@, DEFAULT_MAX_POLLS) {
        StepView::Finish {
            withdraw: None,
            result: Ok(
                NodeOutputView {
                    meta: Some(poll_meta(polls_spent(ctx), request.request_id)),
                    control: Some(
                        NodeControlView::Reenter {
                            after_ms: positive_of(
                                config,
                                "poll_interval_ms"@,
                                DEFAULT_POLL_INTERVAL_MS,
                            ),
                        },
                    ),
                    ..main_output(Seq::empty())
                },
            ),
        }
    } else {
        StepView::Finish {
            withdraw: Some(
                WithdrawalView {
                    request_id: request.request_id,
                    reason: "approval node timed out"@,
                },
            ),
            result: timed_out(ctx, config, request),
        }
    }
}

/// What the node does: ask the host where nothing has settled the review yet,
/// and otherwise hand back what the answer comes to.
pub open spec fn approval_step(
    ctx: ContextView,
    config: JsonView,
    diagnostics: Seq<NullResolutionView>,
    answer: Option<OutcomeView>,
) -> StepView {
    match request_of(ctx, config) {
        Err(error) => StepView::Finish { withdraw: None, result: Err(error) },
        Ok(request) => match delivered_decision(ctx, request) {
            Some(decision) => StepView::Finish {
                withdraw: Some(
                    WithdrawalView {
                        request_id: request.request_id,
                        reason: "resolved via resume"@,
                    },
                ),
                result: settled(ctx, config, request, decision, diagnostics),
            },
            None => match answer {
                None => StepView::Ask(request),
                Some(OutcomeView::Decided(decision)) => StepView::Finish {
                    withdraw: None,
                    result: settled(ctx, config, request, decision, diagnostics),
                },
                Some(OutcomeView::Pending) => waiting(ctx, config, request),
            },
        },
    }
}

/// The node counts one more poll: it polls, and nobody has decided yet.
pub open spec fn spends_a_poll(
    ctx: ContextView,
    config: JsonView,
    answer: Option<OutcomeView>,
) -> bool {
    &&& wait_mode_of(config) == WaitMode::Poll
    &&& answer == Some(OutcomeView::Pending)
    &&& request_of(ctx, config) matches Ok(request) && delivered_decision(ctx, request) is None
}

/// Presents a subject to a human and routes on what they decide.
#[derive(Debug, Clone, Copy)]
pub struct ApprovalNode;

fn silence_text(max_polls: u64) -> (r: String)
    ensures
        r@ == silence(max_polls),
{
    let mut text = "no decision after ".to_owned();
    text.append(decimal_text(max_polls).as_str());
    text.append(" polls");
    text
}

fn timeout_text(id: &str, max_polls: u64, rest: &str) -> (r: String)
    ensures
        r@ == "approval node "@ + debug_text(id@) + ": no decision after "@ + decimal(
            max_polls as nat,
        ) + rest@,
{
    let mut text = "approval node ".to_owned();
    text.append(quoted(id).as_str());
    text.append(": no decision after ");
    text.append(decimal_text(max_polls).as_str());
    text.append(rest);
    text
}

fn timeout_item(request: &ApprovalRequest, max_polls: u64, input: Json) -> (r: Item)
    ensures
        r@ == plain_item(timed_out_json(request@, max_polls, input@)),
{
    let ghost shown = timed_out_json(request@, max_polls, input@)->Object_0;
    let mut entries: Vec<(String, Json)> = Vec::new();
    entries.push(member("approved", Json::Bool(false)));
    entries.push(member("timed_out", Json::Bool(true)));
    entries.push(member("request_id", text_json(request.request_id.as_str())));
    entries.push(member("subject", request.subject.value.clone()));
    entries.push(member("subject_kind", text_json(request.subject.kind.as_str())));
    entries.push(member("edited", Json::Bool(false)));
    entries.push(member("decided_by", Json::Null));
    entries.push(member("comment", Json::String(silence_text(max_polls))));
    entries.push(member("input", input));
    assert(members(entries@) =~= shown);
    Item::new(object(entries))
}

fn timeout_record(polls: u64, request_id: &str, max_polls: u64) -> (r: Json)
    requires
        polls < u64::MAX,
    ensures
        r@ == timeout_meta(polls, request_id@, max_polls),
{
    let ghost outer = timeout_meta(polls, request_id@, max_polls)->Object_0;
    let ghost inner = outer[2].1->Object_0;
    let mut verdict: Vec<(String, Json)> = Vec::new();
    verdict.push(member("approved", Json::Bool(false)));
    verdict.push(member("timed_out", Json::Bool(true)));
    verdict.push(member("decided_by", Json::Null));
    verdict.push(member("comment", Json::String(silence_text(max_polls))));
    verdict.push(member("request_id", text_json(request_id)));
    assert(members(verdict@) =~= inner);
    let mut entries: Vec<(String, Json)> = Vec::new();
    entries.push(member("polls", count_json(polls + 1)));
    entries.push(member("request_id", text_json(request_id)));
    entries.push(member("decision", object(verdict)));
    assert(members(entries@) =~= outer);
    object(entries)
}

impl ApprovalNode {
    fn give_up(&self, ctx: &NodeContext, config: &Json, request: &ApprovalRequest) -> (r: Result<
        NodeOutput,
        EngineError,
    >)
        requires
            polls_spent(ctx@) < u64::MAX,
        ensures
            result_view(r) == timed_out(ctx@, config@, request@),
    {
        let polls = spent_polls(ctx);
        let max_polls = positive_u64(config, "max_polls", DEFAULT_MAX_POLLS);
        let meta = timeout_record(polls, request.request_id.as_str(), max_polls);
        let port = match OnTimeout::from_config(config) {
            OnTimeout::Error => {
                return Err(
                    EngineError::Capability(
                        timeout_text(
                            ctx.node.id.as_str(),
                            max_polls,
                            " polls; raise `max_polls`/`poll_interval_ms`, switch to `wait_mode: \"suspend\"`, or wire a `timeout` port",
                        ),
                    ),
                );
            },
            OnTimeout::Route => "timeout",
            OnTimeout::Reject => match OnReject::from_config(config) {
                OnReject::Route => "rejected",
                OnReject::Drop => {
                    return Ok(NodeOutput::empty().with_meta(meta));
                },
                OnReject::Error => {
                    return Err(
                        EngineError::Capability(
                            timeout_text(
                                ctx.node.id.as_str(),
                                max_polls,
                                " polls, and `on_timeout: \"reject\"` with `on_reject: \"error\"` fails the node",
                            ),
                        ),
                    );
                },
            },
        };
        let input = first_payload(ctx.input.as_slice());
        let mut items: Vec<Item> = Vec::new();
        items.push(timeout_item(request, max_polls, input));
        assert(views(items@) =~= seq![
            plain_item(timed_out_json(request@, max_polls, first_json(ctx@.input))),
        ]);
        Ok(NodeOutput::routed(items, port).with_meta(meta))
    }

    /// Nobody has decided yet: suspend the run, or spend a poll. The poll
    /// count is bounded; once it is spent the review is withdrawn.
    pub fn wait(&self, ctx: &NodeContext, config: &Json, request: &ApprovalRequest) -> (r:
        ApprovalStep)
        requires
            wait_mode_of(config@) == WaitMode::Poll ==> polls_spent(ctx@) < u64::MAX,
        ensures
            r@ == waiting(ctx@, config@, request@),
    {
        if WaitMode::from_config(config) == WaitMode::Suspend {
            return ApprovalStep::Finish {
                withdraw: None,
                result: Ok(NodeOutput::interrupt(ctx.node.id.as_str(), suspension(request))),
            };
        }
        let polls = spent_polls(ctx);
        let max_polls = positive_u64(config, "max_polls", DEFAULT_MAX_POLLS);
        if polls < max_polls {
            let interval = positive_u64(config, "poll_interval_ms", DEFAULT_POLL_INTERVAL_MS);
            let ghost shown = poll_meta(polls, request@.request_id)->Object_0;
            let mut entries: Vec<(String, Json)> = Vec::new();
            entries.push(member("polls", count_json(polls + 1)));
            entries.push(member("request_id", text_json(request.request_id.as_str())));
            assert(members(entries@) =~= shown);
            return ApprovalStep::Finish {
                withdraw: None,
                result: Ok(NodeOutput::reenter_after(interval, object(entries))),
            };
        }
        let withdraw = Withdrawal {
            request_id: request.request_id.clone(),
            reason: "approval node timed out".to_owned(),
        };
        let result = self.give_up(ctx, config, request);
        ApprovalStep::Finish { withdraw: Some(withdraw), result }
    }

    /// Runs the node on its resolved configuration. `answer` is what the host
    /// said, once it has been asked.
    pub fn execute(
        &self,
        ctx: &NodeContext,
        config: &Json,
        diagnostics: Vec<NullResolution>,
        answer: Option<ApprovalOutcome>,
    ) -> (r: ApprovalStep)
        requires
            spends_a_poll(ctx@, config@, opt_view(answer)) ==> polls_spent(ctx@) < u64::MAX,
        ensures
            r@ == approval_step(ctx@, config@, views(diagnostics@), opt_view(answer)),
    {
        let request = match build_request(ctx, config) {
            Ok(request) => request,
            Err(error) => {
                return ApprovalStep::Finish { withdraw: None, result: Err(error) };
            },
        };
        match delivered(ctx, &request) {
            Some(decision) => {
                let withdraw = Withdrawal {
                    request_id: request.request_id.clone(),
                    reason: "resolved via resume".to_owned(),
                };
                let result = settle(ctx, config, &request, &decision, diagnostics);
                ApprovalStep::Finish { withdraw: Some(withdraw), result }
            },
            None => match answer {
                None => ApprovalStep::Ask(request),
                Some(ApprovalOutcome::Decided(decision)) => {
                    let result = settle(ctx, config, &request, &decision, diagnostics);
                    ApprovalStep::Finish { withdraw: None, result }
                },
                Some(ApprovalOutcome::Pending) => self.wait(ctx, config, &request),
            },
        }
    }
}

/// A delivered decision settles the review without the host being asked.
pub proof fn delivered_reviews_are_not_asked(
    ctx: ContextView,
    config: JsonView,
    diagnostics: Seq<NullResolutionView>,
    answer: Option<OutcomeView>,
)
    requires
        request_of(ctx, config) matches Ok(request) && delivered_decision(ctx, request) is Some,
    ensures
        approval_step(ctx, config, diagnostics, answer) is Finish,
        approval_step(ctx, config, diagnostics, answer) == approval_step(
            ctx,
            config,
            diagnostics,
            None,
        ),
{
}

/// A decision to approve.
pub open spec fn approves(decision: Option<DecisionView>) -> bool {
    decision matches Some(made) && made.approved
}

/// What the host decided, where it decided.
pub open spec fn decided_by_host(answer: Option<OutcomeView>) -> Option<DecisionView> {
    match answer {
        Some(OutcomeView::Decided(decision)) => Some(decision),
        _ => None,
    }
}

/// The node finishes on the given port.
pub open spec fn leaves_by(step: StepView, port: Seq<char>) -> bool {
    match step {
        StepView::Finish { result: Ok(out), .. } => out.port == Some(port),
        _ => false,
    }
}

/// Nothing leaves by the `approved` port but what was approved, by a delivered
/// decision or by the host.
pub proof fn only_approval_leaves_approved(
    ctx: ContextView,
    config: JsonView,
    diagnostics: Seq<NullResolutionView>,
    answer: Option<OutcomeView>,
)
    requires
        leaves_by(approval_step(ctx, config, diagnostics, answer), "approved"@),
    ensures
        ({
            let request = request_of(ctx, config)->Ok_0;
            ||| approves(delivered_decision(ctx, request))
            ||| approves(decided_by_host(answer))
        }),
        request_of(ctx, config) is Ok,
{
    reveal_strlit("approved");
    reveal_strlit("rejected");
    reveal_strlit("timeout");
    assert("approved"@[0] == 'a' && "rejected"@[0] == 'r' && "timeout"@[0] == 't');
}

/// Polling is bounded: once as many polls are spent as are allowed, the node
/// does not ask to be run again.
pub proof fn polls_are_bounded(ctx: ContextView, config: JsonView, request: RequestView)
    requires
        polls_spent(ctx) >= positive_of(config, "max_polls"@, DEFAULT_MAX_POLLS),
    ensures
        waiting(ctx, config, request) matches StepView::Finish { result, .. } && (
        result matches Ok(out) ==> !(out.control matches Some(NodeControlView::Reenter { .. }))),
{
}

} // verus!
