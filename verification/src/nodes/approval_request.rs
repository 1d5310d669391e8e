//! Building a review request from a node's configuration, and reading a
//! settled decision out of a resume value or the run's approvals list.
use vstd::prelude::*;

use crate::data::{first_json, first_payload, plain_item, Item};
use crate::json::{
    copy_json, member, members, object, opt_text, text_json, text_or_null, Json, JsonView,
};
use crate::json_text::{json_text, print_json};
use crate::nodes::{ContextView, EngineError, EngineErrorView, NodeContext};
use crate::text::{debug_text, lemma_views_push, opt_view, quoted, same, views};

verus! {

broadcast use lemma_views_push;

/// What is put in front of the approver.
#[derive(Debug, PartialEq, Eq)]
pub struct ApprovalSubject {
    /// How to render it.
    pub kind: String,
    pub value: Json,
}

/// A review to be made.
#[derive(Debug, PartialEq, Eq)]
pub struct ApprovalRequest {
    /// What the provider knows the review by; the same across activations.
    pub request_id: String,
    pub node_id: String,
    pub run_id: Option<String>,
    pub title: Option<String>,
    pub prompt: Option<String>,
    pub subject: ApprovalSubject,
    pub assignees: Vec<String>,
    pub metadata: Json,
}

#[verifier::ext_equal]
pub struct RequestView {
    pub request_id: Seq<char>,
    pub node_id: Seq<char>,
    pub run_id: Option<Seq<char>>,
    pub title: Option<Seq<char>>,
    pub prompt: Option<Seq<char>>,
    pub subject_kind: Seq<char>,
    pub subject: JsonView,
    pub assignees: Seq<Seq<char>>,
    pub metadata: JsonView,
}

impl View for ApprovalRequest {
    type V = RequestView;

    open spec fn view(&self) -> RequestView {
        RequestView {
            request_id: self.request_id@,
            node_id: self.node_id@,
            run_id: opt_view(self.run_id),
            title: opt_view(self.title),
            prompt: opt_view(self.prompt),
            subject_kind: self.subject.kind@,
            subject: self.subject.value@,
            assignees: views(self.assignees@),
            metadata: self.metadata@,
        }
    }
}

/// What an approver decided.
#[derive(Debug, PartialEq, Eq)]
pub struct ApprovalDecision {
    pub approved: bool,
    pub decided_by: Option<String>,
    pub comment: Option<String>,
    /// The approver's own version of the subject.
    pub payload: Option<Json>,
}

#[verifier::ext_equal]
pub struct DecisionView {
    pub approved: bool,
    pub decided_by: Option<Seq<char>>,
    pub comment: Option<Seq<char>>,
    pub payload: Option<JsonView>,
}

impl View for ApprovalDecision {
    type V = DecisionView;

    open spec fn view(&self) -> DecisionView {
        DecisionView {
            approved: self.approved,
            decided_by: opt_view(self.decided_by),
            comment: opt_view(self.comment),
            payload: opt_view(self.payload),
        }
    }
}

pub open spec fn plain_approval() -> DecisionView {
    DecisionView { approved: true, decided_by: None, comment: None, payload: None }
}

pub open spec fn plain_rejection(comment: Option<Seq<char>>) -> DecisionView {
    DecisionView { approved: false, decided_by: None, comment, payload: None }
}

impl ApprovalDecision {
    /// An approval that says no more.
    pub fn approved() -> (r: Self)
        ensures
            r@ == plain_approval(),
    {
        ApprovalDecision { approved: true, decided_by: None, comment: None, payload: None }
    }

    /// A rejection, with a comment where there is one.
    pub fn rejected(comment: Option<String>) -> (r: Self)
        ensures
            r@ == plain_rejection(opt_view(comment)),
    {
        ApprovalDecision { approved: false, decided_by: None, comment, payload: None }
    }
}

/// The run's id, under any of the spellings a host might seed.
pub open spec fn run_id_of(run: JsonView) -> Option<Seq<char>> {
    if run.text_at("id"@) is Some {
        run.text_at("id"@)
    } else if run.text_at("run_id"@) is Some {
        run.text_at("run_id"@)
    } else {
        run.at("trigger"@).text_at("run_id"@)
    }
}

fn run_id(run: &Json) -> (r: Option<String>)
    ensures
        opt_view(r) == run_id_of(run@),
{
    match run.text_copy("id") {
        Some(id) => Some(id),
        None => match run.text_copy("run_id") {
            Some(id) => Some(id),
            None => match run.get("trigger") {
                Some(trigger) => trigger.text_copy("run_id"),
                None => None,
            },
        },
    }
}

/// The id of a review: the configured one, or else the run and the node.
pub open spec fn request_id_of(ctx: ContextView, config: JsonView) -> Option<Seq<char>> {
    match config.text_at("request_id"@) {
        Some(explicit) => Some(explicit),
        None => match run_id_of(ctx.run) {
            Some(run) => Some(run + ":"@ + ctx.node.id),
            None => None,
        },
    }
}

pub open spec fn no_identity_reason(id: Seq<char>) -> Seq<char> {
    "approval node "@ + debug_text(id)
        + ": no `request_id` configured and no run-scoped identity available (expected `run.id`, `run.run_id`, or `run.trigger.run_id`); set `config.request_id` explicitly or seed a run id, otherwise later runs could reuse an earlier run's decision"@
}

/// What is reviewed: the configured subject, or else the item that arrived.
pub open spec fn subject_of(ctx: ContextView, config: JsonView) -> JsonView {
    match config.get("subject"@) {
        Some(value) => value,
        None => first_json(ctx.input),
    }
}

/// The texts among the first `n` values, in order.
pub open spec fn texts_in(values: Seq<JsonView>, n: nat) -> Seq<Seq<char>>
    decreases n,
{
    if n == 0 {
        Seq::empty()
    } else {
        let rest = texts_in(values, (n - 1) as nat);
        match values[n - 1].as_str() {
            Some(text) => rest.push(text),
            None => rest,
        }
    }
}

fn texts_of(values: &Vec<Json>) -> (r: Vec<String>)
    ensures
        views(r@) == texts_in(views(values@), values@.len()),
{
    let mut texts: Vec<String> = Vec::new();
    let ghost all = views(values@);
    let mut i: usize = 0;
    assert(views(texts@) =~= texts_in(all, 0));
    while i < values.len()
        invariant
            i <= values@.len(),
            all == views(values@),
            views(texts@) == texts_in(all, i as nat),
        decreases values@.len() - i,
    {
        assert(all[i as int] == values@[i as int]@);
        match values[i].as_str() {
            Some(text) => texts.push(text.to_owned()),
            None => {},
        }
        i = i + 1;
    }
    texts
}

pub open spec fn not_a_list_reason(id: Seq<char>, value: JsonView) -> Seq<char> {
    "approval node "@ + debug_text(id) + ": `assignees` resolved to "@ + json_text(value)
        + ", not an array of strings"@
}

pub open spec fn nobody_reason(id: Seq<char>) -> Seq<char> {
    "approval node "@ + debug_text(id)
        + ": `assignees` resolved to an empty array; a review with nobody assigned can never be resolved"@
}

/// Who is to review: nobody in particular where nothing is said, and else the
/// texts of a list that holds at least one.
pub open spec fn assignees_of(id: Seq<char>, config: JsonView) -> Result<
    Seq<Seq<char>>,
    EngineErrorView,
> {
    match config.get("assignees"@) {
        None => Ok(Seq::empty()),
        Some(value) => match value.as_array() {
            None => Err(EngineErrorView::Capability(not_a_list_reason(id, value))),
            Some(values) => {
                let texts = texts_in(values, values.len());
                if texts.len() == 0 {
                    Err(EngineErrorView::Capability(nobody_reason(id)))
                } else {
                    Ok(texts)
                }
            },
        },
    }
}

/// The review request of a node, from its resolved configuration.
pub open spec fn request_of(ctx: ContextView, config: JsonView) -> Result<
    RequestView,
    EngineErrorView,
> {
    match request_id_of(ctx, config) {
        None => Err(EngineErrorView::Capability(no_identity_reason(ctx.node.id))),
        Some(request_id) => match assignees_of(ctx.node.id, config) {
            Err(error) => Err(error),
            Ok(assignees) => Ok(
                RequestView {
                    request_id,
                    node_id: ctx.node.id,
                    run_id: run_id_of(ctx.run),
                    title: config.text_at("title"@),
                    prompt: config.text_at("prompt"@),
                    subject_kind: match config.text_at("subject_kind"@) {
                        Some(kind) => kind,
                        None => "json"@,
                    },
                    subject: subject_of(ctx, config),
                    assignees,
                    metadata: config.at("metadata"@),
                },
            ),
        },
    }
}

fn about_node(id: &str, rest: &str) -> (r: String)
    ensures
        r@ == "approval node "@ + debug_text(id@) + rest@,
{
    let mut text = "approval node ".to_owned();
    text.append(quoted(id).as_str());
    text.append(rest);
    text
}

fn read_assignees(id: &str, config: &Json) -> (r: Result<Vec<String>, EngineError>)
    ensures
        match r {
            Ok(texts) => assignees_of(id@, config@) == Ok::<Seq<Seq<char>>, EngineErrorView>(
                views(texts@),
            ),
            Err(error) => assignees_of(id@, config@) == Err::<Seq<Seq<char>>, EngineErrorView>(
                error@,
            ),
        },
{
    match config.get("assignees") {
        None => {
            let none: Vec<String> = Vec::new();
            assert(views(none@) =~= Seq::<Seq<char>>::empty());
            Ok(none)
        },
        Some(value) => match value.as_array() {
            None => {
                let mut reason = about_node(id, ": `assignees` resolved to ");
                reason.append(print_json(value).as_str());
                reason.append(", not an array of strings");
                Err(EngineError::Capability(reason))
            },
            Some(values) => {
                let texts = texts_of(values);
                assert(views(texts@).len() == texts@.len());
                if texts.len() == 0 {
                    Err(
                        EngineError::Capability(
                            about_node(
                                id,
                                ": `assignees` resolved to an empty array; a review with nobody assigned can never be resolved",
                            ),
                        ),
                    )
                } else {
                    Ok(texts)
                }
            },
        },
    }
}

/// Builds the review request of a node from its resolved configuration.
///
/// Its id is the same on every activation: the configured one, or the run and
/// the node. A node with neither is refused, since a later run could otherwise
/// inherit an earlier run's decision.
pub fn build_request(ctx: &NodeContext, config: &Json) -> (r: Result<ApprovalRequest, EngineError>)
    ensures
        match r {
            Ok(request) => request_of(ctx@, config@) == Ok::<RequestView, EngineErrorView>(
                request@,
            ),
            Err(error) => request_of(ctx@, config@) == Err::<RequestView, EngineErrorView>(error@),
        },
{
    let run = run_id(ctx.run);
    let request_id = match config.text_copy("request_id") {
        Some(explicit) => explicit,
        None => match &run {
            Some(run) => {
                let mut id = run.clone();
                id.append(":");
                id.append(ctx.node.id.as_str());
                id
            },
            None => {
                return Err(
                    EngineError::Capability(
                        about_node(
                            ctx.node.id.as_str(),
                            ": no `request_id` configured and no run-scoped identity available (expected `run.id`, `run.run_id`, or `run.trigger.run_id`); set `config.request_id` explicitly or seed a run id, otherwise later runs could reuse an earlier run's decision",
                        ),
                    ),
                );
            },
        },
    };
    let value = match config.get("subject") {
        Some(subject) => subject.clone(),
        None => first_payload(ctx.input.as_slice()),
    };
    match read_assignees(ctx.node.id.as_str(), config) {
        Err(error) => Err(error),
        Ok(assignees) => {
            let kind = match config.text_copy("subject_kind") {
                Some(kind) => kind,
                None => "json".to_owned(),
            };
            let request = ApprovalRequest {
                request_id,
                node_id: ctx.node.id.clone(),
                run_id: run,
                title: config.text_copy("title"),
                prompt: config.text_copy("prompt"),
                subject: ApprovalSubject { kind, value },
                assignees,
                metadata: config.at("metadata"),
            };
            Ok(request)
        },
    }
}

/// Some text in the list is the node's id or the review's.
pub open spec fn list_names(list: Option<JsonView>, request: RequestView) -> bool {
    match list {
        Some(value) => match value.as_array() {
            Some(ids) => exists|i: int|
                0 <= i < ids.len() && ((#[trigger] ids[i]).as_str() == Some(request.node_id)
                    || ids[i].as_str() == Some(request.request_id)),
            None => false,
        },
        None => false,
    }
}

/// Whether a list of ids names this node or its review.
pub fn names(list: Option<&Json>, request: &ApprovalRequest) -> (r: bool)
    ensures
        r == list_names(
            match list {
                Some(value) => Some(value@),
                None => None,
            },
            request@,
        ),
{
    match list {
        None => false,
        Some(value) => match value.as_array() {
            None => false,
            Some(ids) => {
                let ghost all = views(ids@);
                let mut i: usize = 0;
                while i < ids.len()
                    invariant
                        i <= ids@.len(),
                        all == views(ids@),
                        list == Some(value),
                        value@.as_array() == Some(all),
                        forall|k: int|
                            0 <= k < i ==> !((#[trigger] all[k]).as_str() == Some(request@.node_id)
                                || all[k].as_str() == Some(request@.request_id)),
                    decreases ids@.len() - i,
                {
                    assert(all[i as int] == ids@[i as int]@);
                    match ids[i].as_str() {
                        Some(id) => {
                            if same(id, request.node_id.as_str()) || same(
                                id,
                                request.request_id.as_str(),
                            ) {
                                return true;
                            }
                        },
                        None => {},
                    }
                    i = i + 1;
                }
                false
            },
        },
    }
}

/// The verdict object of a resume value: the one nested under `decision`, or
/// the value itself.
pub open spec fn verdict_of(resume: JsonView) -> JsonView {
    match resume.get("decision"@) {
        Some(nested) => nested,
        None => resume,
    }
}

/// The review a verdict says it is for.
pub open spec fn addressee(verdict: JsonView) -> Option<Seq<char>> {
    match verdict.get("node_id"@) {
        Some(value) => value.as_str(),
        None => verdict.text_at("request_id"@),
    }
}

/// The decision a resume value holds for a review: a denial before an
/// approval, and else a verdict that is not addressed to another review.
pub open spec fn resumed_decision(resume: JsonView, request: RequestView) -> Option<DecisionView> {
    if list_names(resume.get("rejected"@), request) {
        Some(plain_rejection(resume.text_at("comment"@)))
    } else if list_names(resume.get("approved"@), request) {
        Some(plain_approval())
    } else {
        let verdict = verdict_of(resume);
        if addressee(verdict) matches Some(named) && named != request.node_id && named
            != request.request_id {
            None
        } else {
            match verdict.at("approved"@).as_bool() {
                Some(approved) => Some(
                    DecisionView {
                        approved,
                        decided_by: verdict.text_at("decided_by"@),
                        comment: verdict.text_at("comment"@),
                        payload: verdict.get("payload"@),
                    },
                ),
                None => None,
            }
        }
    }
}

/// Reads a decision out of a resume value, if it carries one for this review.
pub fn decision_from_resume(resume: &Json, request: &ApprovalRequest) -> (r: Option<
    ApprovalDecision,
>)
    ensures
        opt_view(r) == resumed_decision(resume@, request@),
{
    if names(resume.get("rejected"), request) {
        return Some(ApprovalDecision::rejected(resume.text_copy("comment")));
    }
    if names(resume.get("approved"), request) {
        return Some(ApprovalDecision::approved());
    }
    let verdict = match resume.get("decision") {
        Some(nested) => nested,
        None => resume,
    };
    let named = match verdict.get("node_id") {
        Some(value) => value.as_str(),
        None => verdict.text_at("request_id"),
    };
    match named {
        Some(id) => {
            if !same(id, request.node_id.as_str()) && !same(id, request.request_id.as_str()) {
                return None;
            }
        },
        None => {},
    }
    let approved = match verdict.get("approved") {
        Some(value) => value.as_bool(),
        None => None,
    };
    match approved {
        None => None,
        Some(approved) => {
            let payload = copy_json(verdict.get("payload"));
            Some(
                ApprovalDecision {
                    approved,
                    decided_by: verdict.text_copy("decided_by"),
                    comment: verdict.text_copy("comment"),
                    payload,
                },
            )
        },
    }
}

/// The decision in hand before the host is asked.
pub open spec fn delivered_decision(ctx: ContextView, request: RequestView) -> Option<
    DecisionView,
> {
    let resumed = match ctx.resume {
        Some(resume) => resumed_decision(resume, request),
        None => None,
    };
    if resumed is Some {
        resumed
    } else if list_names(ctx.run.at("trigger"@).get("approvals"@), request) || list_names(
        ctx.run.get("approvals"@),
        request,
    ) {
        Some(plain_approval())
    } else {
        None
    }
}

/// The decision already in hand before the host is asked: a resume value, or
/// this node's id on the run's approvals list.
pub fn delivered(ctx: &NodeContext, request: &ApprovalRequest) -> (r: Option<ApprovalDecision>)
    ensures
        opt_view(r) == delivered_decision(ctx@, request@),
{
    match &ctx.resume {
        Some(resume) => match decision_from_resume(resume, request) {
            Some(decision) => {
                return Some(decision);
            },
            None => {},
        },
        None => {},
    }
    let listed = match ctx.run.get("trigger") {
        Some(trigger) => trigger.get("approvals"),
        None => None,
    };
    if names(listed, request) || names(ctx.run.get("approvals"), request) {
        return Some(ApprovalDecision::approved());
    }
    None
}

/// The payload a settled review emits.
pub open spec fn decided_json(
    request: RequestView,
    decision: DecisionView,
    input: JsonView,
) -> JsonView {
    JsonView::Object(
        seq![
            ("approved"@, JsonView::Bool(decision.approved)),
            (
                "subject"@,
                match decision.payload {
                    Some(edited) => edited,
                    None => request.subject,
                },
            ),
            ("subject_kind"@, JsonView::String(request.subject_kind)),
            ("edited"@, JsonView::Bool(decision.payload is Some)),
            ("decided_by"@, text_or_null(decision.decided_by)),
            ("comment"@, text_or_null(decision.comment)),
            ("request_id"@, JsonView::String(request.request_id)),
            ("input"@, input),
        ],
    )
}

/// The item a settled review emits: what was signed off, and by whom.
pub fn decided_item(request: &ApprovalRequest, decision: &ApprovalDecision, input: Json) -> (r: Item)
    ensures
        r@ == plain_item(decided_json(request@, decision@, input@)),
{
    let ghost shown = decided_json(request@, decision@, input@)->Object_0;
    let subject = match &decision.payload {
        Some(edited) => edited.clone(),
        None => request.subject.value.clone(),
    };
    let mut entries: Vec<(String, Json)> = Vec::new();
    entries.push(member("approved", Json::Bool(decision.approved)));
    entries.push(member("subject", subject));
    entries.push(member("subject_kind", text_json(request.subject.kind.as_str())));
    entries.push(member("edited", Json::Bool(decision.payload.is_some())));
    entries.push(member("decided_by", opt_text(&decision.decided_by)));
    entries.push(member("comment", opt_text(&decision.comment)));
    entries.push(member("request_id", text_json(request.request_id.as_str())));
    entries.push(member("input", input));
    assert(members(entries@) =~= shown);
    Item::new(object(entries))
}

/// What a settled review records about itself.
pub open spec fn decision_record(decision: DecisionView, request: RequestView) -> JsonView {
    JsonView::Object(
        seq![
            (
                "decision"@,
                JsonView::Object(
                    seq![
                        ("approved"@, JsonView::Bool(decision.approved)),
                        ("decided_by"@, text_or_null(decision.decided_by)),
                        ("comment"@, text_or_null(decision.comment)),
                        ("request_id"@, JsonView::String(request.request_id)),
                    ],
                ),
            ),
        ],
    )
}

/// The slot state a settled review records, readable from anywhere in the
/// graph.
pub fn decision_meta(decision: &ApprovalDecision, request: &ApprovalRequest) -> (r: Json)
    ensures
        r@ == decision_record(decision@, request@),
{
    let ghost outer = decision_record(decision@, request@)->Object_0;
    let ghost inner = outer[0].1->Object_0;
    let mut entries: Vec<(String, Json)> = Vec::new();
    entries.push(member("approved", Json::Bool(decision.approved)));
    entries.push(member("decided_by", opt_text(&decision.decided_by)));
    entries.push(member("comment", opt_text(&decision.comment)));
    entries.push(member("request_id", text_json(request.request_id.as_str())));
    assert(members(entries@) =~= inner);
    let mut wrapped: Vec<(String, Json)> = Vec::new();
    wrapped.push(member("decision", object(entries)));
    assert(members(wrapped@) =~= outer);
    object(wrapped)
}

/// A denial beats an approval that comes in the same resume value.
pub proof fn denial_beats_approval(resume: JsonView, request: RequestView)
    requires
        list_names(resume.get("rejected"@), request),
    ensures
        resumed_decision(resume, request) matches Some(decision) && !decision.approved,
{
}

/// A verdict addressed to another review is never taken.
pub proof fn foreign_verdicts_are_not_taken(resume: JsonView, request: RequestView)
    requires
        !list_names(resume.get("rejected"@), request),
        !list_names(resume.get("approved"@), request),
        addressee(verdict_of(resume)) matches Some(named) && named != request.node_id && named
            != request.request_id,
    ensures
        resumed_decision(resume, request) is None,
{
}

/// A review's id depends on the run and the configuration alone, so every
/// activation asks about the same review; and two runs never share one unless
/// it was configured.
pub proof fn request_ids_are_stable(a: ContextView, b: ContextView, config: JsonView)
    requires
        a.node.id == b.node.id,
        run_id_of(a.run) == run_id_of(b.run),
    ensures
        request_id_of(a, config) == request_id_of(b, config),
{
}

} // verus!
