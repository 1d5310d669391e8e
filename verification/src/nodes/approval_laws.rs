//! What holds of every review.
use vstd::prelude::*;

use crate::data::first_json;
use crate::json::{lemma_member_reads, JsonView, NumberView};
use crate::nodes::{ContextView, EngineErrorView, NodeControlView, NullResolutionView};
use crate::nodes::approval::{
    approval_step, interrupt_payload, poll_meta, polls_spent, positive_of, rejected_reason, silence,
    timed_out_json, timeout_meta, OutcomeView, StepView,
};
use crate::nodes::approval_request::{
    decided_json, decision_record, delivered_decision, list_names, request_of, texts_in,
    DecisionView, RequestView,
};
use crate::text::{debug_text, decimal, lemma_occurs_between, occurs_in};

verus! {

/// An optional text as a member: `null` where it is missing.
pub open spec fn reads_text(value: Option<JsonView>, text: Option<Seq<char>>) -> bool {
    &&& text matches Some(inner) ==> value == Some(JsonView::String(inner))
    &&& text is None ==> value == Some(JsonView::Null)
}

/// An item says what was decided of a request: what was signed off, which is the
/// approver's own version where they made one, and who decided, and why.
pub open spec fn tells_decision(
    item: JsonView,
    request: RequestView,
    decision: DecisionView,
    input: JsonView,
) -> bool {
    &&& item.get("approved"@) == Some(JsonView::Bool(decision.approved))
    &&& decision.payload is Some ==> item.get("subject"@) == decision.payload
    &&& decision.payload is None ==> item.get("subject"@) == Some(request.subject)
    &&& item.get("edited"@) == Some(JsonView::Bool(decision.payload is Some))
    &&& item.get("subject_kind"@) == Some(JsonView::String(request.subject_kind))
    &&& reads_text(item.get("decided_by"@), decision.decided_by)
    &&& reads_text(item.get("comment"@), decision.comment)
    &&& item.get("request_id"@) == Some(JsonView::String(request.request_id))
    &&& item.get("input"@) == Some(input)
}

/// A slot records what was decided of a request.
pub open spec fn records_decision(
    meta: JsonView,
    request: RequestView,
    decision: DecisionView,
) -> bool {
    let made = meta.at("decision"@);
    &&& made.get("approved"@) == Some(JsonView::Bool(decision.approved))
    &&& reads_text(made.get("decided_by"@), decision.decided_by)
    &&& reads_text(made.get("comment"@), decision.comment)
    &&& made.get("request_id"@) == Some(JsonView::String(request.request_id))
}

/// The payload of the item that arrived, and `null` where none did.
pub open spec fn arrived(ctx: ContextView, value: JsonView) -> bool {
    &&& ctx.input.len() > 0 ==> value == ctx.input[0].json
    &&& ctx.input.len() == 0 ==> value is Null
}

proof fn lemma_item_keys()
    ensures
        "approved"@ != "subject"@,
        "approved"@ != "subject_kind"@,
        "approved"@ != "edited"@,
        "approved"@ != "decided_by"@,
        "approved"@ != "comment"@,
        "approved"@ != "request_id"@,
        "approved"@ != "input"@,
        "subject"@ != "subject_kind"@,
        "subject"@ != "edited"@,
        "subject"@ != "decided_by"@,
        "subject"@ != "comment"@,
        "subject"@ != "request_id"@,
        "subject"@ != "input"@,
        "subject_kind"@ != "edited"@,
        "subject_kind"@ != "decided_by"@,
        "subject_kind"@ != "comment"@,
        "subject_kind"@ != "request_id"@,
        "subject_kind"@ != "input"@,
        "edited"@ != "decided_by"@,
        "edited"@ != "comment"@,
        "edited"@ != "request_id"@,
        "edited"@ != "input"@,
        "decided_by"@ != "comment"@,
        "decided_by"@ != "request_id"@,
        "decided_by"@ != "input"@,
        "comment"@ != "request_id"@,
        "comment"@ != "input"@,
        "request_id"@ != "input"@,
{
    reveal_strlit("approved");
    reveal_strlit("subject");
    reveal_strlit("subject_kind");
    reveal_strlit("edited");
    reveal_strlit("decided_by");
    reveal_strlit("comment");
    reveal_strlit("request_id");
    reveal_strlit("input");
    assert("approved"@.len() == 8 && "subject"@.len() == 7 && "subject_kind"@.len() == 12 && "edited"@.len() == 6 && "decided_by"@.len() == 10 && "comment"@.len() == 7 && "request_id"@.len() == 10 && "input"@.len() == 5);
    assert("subject"@[0] == 's');
    assert("comment"@[0] == 'c');
    assert("decided_by"@[0] == 'd');
    assert("request_id"@[0] == 'r');
}

proof fn lemma_decided(request: RequestView, decision: DecisionView, input: JsonView)
    ensures
        tells_decision(decided_json(request, decision, input), request, decision, input),
        records_decision(decision_record(decision, request), request, decision),
{
    lemma_item_keys();
    let entries = decided_json(request, decision, input)->Object_0;
    lemma_member_reads(entries, 0);
    lemma_member_reads(entries, 1);
    lemma_member_reads(entries, 2);
    lemma_member_reads(entries, 3);
    lemma_member_reads(entries, 4);
    lemma_member_reads(entries, 5);
    lemma_member_reads(entries, 6);
    lemma_member_reads(entries, 7);
    let outer = decision_record(decision, request)->Object_0;
    lemma_member_reads(outer, 0);
    let inner = outer[0].1->Object_0;
    lemma_member_reads(inner, 0);
    lemma_member_reads(inner, 1);
    lemma_member_reads(inner, 2);
    lemma_member_reads(inner, 3);
}

/// The step hands on one unpaired item that tells the decision, by the given
/// port, with the diagnostics and the record of the decision.
pub open spec fn hands_on(
    step: StepView,
    port: Seq<char>,
    ctx: ContextView,
    request: RequestView,
    decision: DecisionView,
    diagnostics: Seq<NullResolutionView>,
) -> bool {
    step matches StepView::Finish { result: Ok(out), .. } && {
        &&& out.port == Some(port)
        &&& out.items.len() == 1
        &&& out.items[0].paired_item is None
        &&& arrived(ctx, out.items[0].json.at("input"@))
        &&& tells_decision(
            out.items[0].json,
            request,
            decision,
            out.items[0].json.at("input"@),
        )
        &&& out.meta matches Some(meta) && records_decision(meta, request, decision)
        &&& out.diagnostics == diagnostics
        &&& out.control is None
    }
}

/// The decision that settles a review: the one that was delivered, and else the
/// host's.
pub open spec fn settles(
    ctx: ContextView,
    request: RequestView,
    answer: Option<OutcomeView>,
    decision: DecisionView,
) -> bool {
    match delivered_decision(ctx, request) {
        Some(delivered) => decision == delivered,
        None => answer == Some(OutcomeView::Decided(decision)),
    }
}

/// What was approved leaves by `approved`, as the approver left it.
pub proof fn approved_subjects_go_on(
    ctx: ContextView,
    config: JsonView,
    diagnostics: Seq<NullResolutionView>,
    answer: Option<OutcomeView>,
    request: RequestView,
    decision: DecisionView,
)
    requires
        request_of(ctx, config) == Ok::<RequestView, EngineErrorView>(request),
        settles(ctx, request, answer, decision),
        decision.approved,
    ensures
        hands_on(
            approval_step(ctx, config, diagnostics, answer),
            "approved"@,
            ctx,
            request,
            decision,
            diagnostics,
        ),
{
    lemma_decided(request, decision, first_json(ctx.input));
}

/// What was rejected leaves by `rejected` unless the configuration drops it or
/// fails on it; a dropped rejection is still recorded.
pub proof fn rejected_subjects_follow_the_policy(
    ctx: ContextView,
    config: JsonView,
    diagnostics: Seq<NullResolutionView>,
    answer: Option<OutcomeView>,
    request: RequestView,
    decision: DecisionView,
)
    requires
        request_of(ctx, config) == Ok::<RequestView, EngineErrorView>(request),
        settles(ctx, request, answer, decision),
        !decision.approved,
    ensures
        ({
            let step = approval_step(ctx, config, diagnostics, answer);
            let policy = config.text_at("on_reject"@);
            &&& policy != Some("drop"@) && policy != Some("error"@) ==> hands_on(
                step,
                "rejected"@,
                ctx,
                request,
                decision,
                diagnostics,
            )
            &&& policy == Some("drop"@) ==> (step matches StepView::Finish { result: Ok(out), .. }
                && out.items.len() == 0 && out.port is None && out.control is None
                && out.diagnostics == diagnostics && (out.meta matches Some(meta)
                && records_decision(meta, request, decision)))
            &&& policy == Some("error"@) ==> (step matches StepView::Finish { result: Err(_), .. })
        }),
{
    lemma_decided(request, decision, first_json(ctx.input));
    reveal_strlit("drop");
    reveal_strlit("error");
    assert("drop"@.len() == 4 && "error"@.len() == 5);
}

/// A rejection that fails the node says who rejected and why.
pub proof fn failed_rejections_say_why(
    ctx: ContextView,
    config: JsonView,
    diagnostics: Seq<NullResolutionView>,
    answer: Option<OutcomeView>,
    request: RequestView,
    decision: DecisionView,
)
    requires
        request_of(ctx, config) == Ok::<RequestView, EngineErrorView>(request),
        settles(ctx, request, answer, decision),
        !decision.approved,
        config.text_at("on_reject"@) == Some("error"@),
        decision.decided_by is Some,
        decision.comment is Some,
    ensures
        approval_step(ctx, config, diagnostics, answer) matches StepView::Finish {
            result: Err(EngineErrorView::Capability(text)),
            ..
        } && (decision.decided_by->0 + " ("@ + decision.comment->0 + ")"@).is_suffix_of(text),
{
    let text = rejected_reason(ctx.node.id, decision);
    let front = "approval node "@ + debug_text(ctx.node.id) + ": rejected by "@;
    let tail = decision.decided_by->0 + " ("@ + decision.comment->0 + ")"@;
    assert(text =~= front + tail);
    assert(tail =~= text.subrange(text.len() - tail.len(), text.len() as int));
}

/// A review that was settled by a delivered decision is taken back from the
/// host, and one that the host settled is not.
pub proof fn delivered_reviews_are_taken_back(
    ctx: ContextView,
    config: JsonView,
    diagnostics: Seq<NullResolutionView>,
    answer: Option<OutcomeView>,
    request: RequestView,
    decision: DecisionView,
)
    requires
        request_of(ctx, config) == Ok::<RequestView, EngineErrorView>(request),
        settles(ctx, request, answer, decision),
    ensures
        approval_step(ctx, config, diagnostics, answer) matches StepView::Finish { withdraw, .. } && {
            &&& delivered_decision(ctx, request) is Some ==> (withdraw matches Some(taken)
                && taken.request_id == request.request_id)
            &&& delivered_decision(ctx, request) is None ==> withdraw is None
        },
{
}

/// Where nothing has settled a review, the host is asked about it.
pub proof fn unsettled_reviews_are_asked(
    ctx: ContextView,
    config: JsonView,
    diagnostics: Seq<NullResolutionView>,
    request: RequestView,
)
    requires
        request_of(ctx, config) == Ok::<RequestView, EngineErrorView>(request),
        delivered_decision(ctx, request) is None,
    ensures
        approval_step(ctx, config, diagnostics, None) == StepView::Ask(request),
{
}

/// The list names the node or its review.
pub open spec fn named_in(list: JsonView, request: RequestView) -> bool {
    list matches JsonView::Array(ids) && exists|i: int|
        0 <= i < ids.len() && ((#[trigger] ids[i]) == JsonView::String(request.node_id) || ids[i]
            == JsonView::String(request.request_id))
}

/// The verdict is meant for the review: it names it, or names none.
pub open spec fn meant_for(verdict: JsonView, request: RequestView) -> bool {
    let named = if verdict.get("node_id"@) is Some {
        verdict.text_at("node_id"@)
    } else {
        verdict.text_at("request_id"@)
    };
    named is None || named == Some(request.node_id) || named == Some(request.request_id)
}

proof fn lemma_named(list: Option<JsonView>, request: RequestView)
    ensures
        list_names(list, request) == (list matches Some(value)
            && named_in(value, request)),
{
}

/// A resume value settles a review: by a denial that lists it, else by an
/// approval that lists it, else by a verdict that is meant for it, whose every
/// field is taken as it stands.
pub proof fn resumes_deliver_decisions(ctx: ContextView, request: RequestView, resume: JsonView)
    requires
        ctx.resume == Some(resume),
    ensures
        ({
            let made = delivered_decision(ctx, request);
            let verdict = if resume.get("decision"@) is Some {
                resume.at("decision"@)
            } else {
                resume
            };
            let denied = named_in(resume.at("rejected"@), request);
            let listed = named_in(resume.at("approved"@), request);
            &&& denied ==> (made matches Some(decision) && !decision.approved && decision.comment
                == resume.text_at("comment"@) && decision.payload is None)
            &&& !denied && listed ==> (made matches Some(decision) && decision.approved
                && decision.payload is None)
            &&& !denied && !listed && meant_for(verdict, request) ==> (verdict.at(
                "approved"@,
            ) matches JsonView::Bool(approved) ==> (made matches Some(decision)
                && decision.approved == approved && decision.decided_by == verdict.text_at(
                "decided_by"@,
            ) && decision.comment == verdict.text_at("comment"@) && decision.payload
                == verdict.get("payload"@)))
        }),
{
    lemma_named(resume.get("rejected"@), request);
    lemma_named(resume.get("approved"@), request);
}

/// Without a resume value, a run's list of approvals settles a review that it
/// names, and nothing else does.
pub proof fn listed_approvals_settle(ctx: ContextView, request: RequestView)
    requires
        ctx.resume is None,
    ensures
        (named_in(ctx.run.at("trigger"@).at("approvals"@), request) || named_in(
            ctx.run.at("approvals"@),
            request,
        )) ==> (delivered_decision(ctx, request) matches Some(decision) && decision.approved
            && decision.payload is None),
        !(named_in(ctx.run.at("trigger"@).at("approvals"@), request) || named_in(
            ctx.run.at("approvals"@),
            request,
        )) ==> delivered_decision(ctx, request) is None,
{
    lemma_named(ctx.run.at("trigger"@).get("approvals"@), request);
    lemma_named(ctx.run.get("approvals"@), request);
}

/// What the host is shown is what was configured: its title, prompt, kind and
/// metadata, and the configured subject, or else the item that arrived.
pub proof fn requests_show_what_is_configured(ctx: ContextView, config: JsonView)
    ensures
        request_of(ctx, config) matches Ok(request) ==> {
            &&& request.node_id == ctx.node.id
            &&& request.title == config.text_at("title"@)
            &&& request.prompt == config.text_at("prompt"@)
            &&& config.get("subject"@) is Some ==> Some(request.subject) == config.get("subject"@)
            &&& config.get("subject"@) is None ==> arrived(ctx, request.subject)
            &&& config.text_at("subject_kind"@) is Some ==> Some(request.subject_kind)
                == config.text_at("subject_kind"@)
            &&& config.text_at("subject_kind"@) is None ==> request.subject_kind == "json"@
            &&& request.metadata == config.at("metadata"@)
        },
{
}

/// A review has the configured id, or else that of the run and the node; a node
/// with neither is refused, so that no run takes over another's decision.
pub proof fn requests_are_identified(ctx: ContextView, config: JsonView)
    ensures
        ({
            let made = request_of(ctx, config);
            let explicit = config.text_at("request_id"@);
            let a = ctx.run.text_at("id"@);
            let b = ctx.run.text_at("run_id"@);
            let c = ctx.run.at("trigger"@).text_at("run_id"@);
            &&& explicit is None && a is None && b is None && c is None ==> made is Err
            &&& made matches Ok(request) ==> {
                &&& explicit matches Some(id) ==> request.request_id == id
                &&& explicit is None ==> (request.run_id matches Some(run) && request.request_id
                    == run + ":"@ + ctx.node.id)
                &&& a is Some ==> request.run_id == a
                &&& a is None && b is Some ==> request.run_id == b
                &&& a is None && b is None ==> request.run_id == c
            }
        }),
{
}

/// A review is refused for nothing but a missing identity, or assignees that
/// name nobody.
pub proof fn requests_are_refused_for_cause(ctx: ContextView, config: JsonView)
    requires
        request_of(ctx, config) is Err,
        config.text_at("request_id"@) is Some || ctx.run.text_at("id"@) is Some,
    ensures
        config.get("assignees"@) matches Some(value) && (value matches JsonView::Array(values)
            ==> forall|i: int| 0 <= i < values.len() ==> !((#[trigger] values[i]) is String)),
{
    let value = config.at("assignees"@);
    if let JsonView::Array(values) = value {
        assert forall|i: int| 0 <= i < values.len() implies !((#[trigger] values[i]) is String) by {
            if values[i] is String {
                lemma_texts_kept(values, values.len(), i);
            }
        }
    }
}

/// Everyone who is named is assigned, in the order in which they are named.
pub proof fn assignees_are_those_named(values: Seq<JsonView>, more: JsonView)
    ensures
        ({
            let before = texts_in(values, values.len());
            let after = texts_in(
                values.push(more),
                values.push(more).len(),
            );
            &&& more matches JsonView::String(name) ==> after == before.push(name)
            &&& !(more is String) ==> after == before
        }),
{
    lemma_texts_front(values, more, values.len());
}

proof fn lemma_texts_front(values: Seq<JsonView>, more: JsonView, n: nat)
    requires
        n <= values.len(),
    ensures
        texts_in(values.push(more), n)
            == texts_in(values, n),
    decreases n,
{
    if n > 0 {
        lemma_texts_front(values, more, (n - 1) as nat);
        assert(values.push(more)[n - 1] == values[n - 1]);
    }
}

proof fn lemma_texts_kept(values: Seq<JsonView>, n: nat, i: int)
    requires
        0 <= i < n <= values.len(),
        values[i] is String,
    ensures
        texts_in(values, n).len() > 0,
    decreases n,
{
    if i < n - 1 {
        lemma_texts_kept(values, (n - 1) as nat, i);
    }
}

/// A positive whole number is configured under a key.
pub open spec fn configured(config: JsonView, key: Seq<char>, n: u64) -> bool {
    n > 0 && config.at(key) == JsonView::Number(NumberView::PosInt(n))
}

/// The node still waits: nothing settled the review, and the host has no answer.
pub open spec fn still_waits(
    ctx: ContextView,
    config: JsonView,
    request: RequestView,
    answer: Option<OutcomeView>,
) -> bool {
    &&& request_of(ctx, config) == Ok::<RequestView, EngineErrorView>(request)
    &&& delivered_decision(ctx, request) is None
    &&& answer == Some(OutcomeView::Pending)
}

proof fn lemma_shown_keys()
    ensures
        "kind"@ != "node"@,
        "kind"@ != "request_id"@,
        "kind"@ != "title"@,
        "kind"@ != "prompt"@,
        "kind"@ != "subject"@,
        "kind"@ != "subject_kind"@,
        "kind"@ != "assignees"@,
        "kind"@ != "metadata"@,
        "node"@ != "request_id"@,
        "node"@ != "title"@,
        "node"@ != "prompt"@,
        "node"@ != "subject"@,
        "node"@ != "subject_kind"@,
        "node"@ != "assignees"@,
        "node"@ != "metadata"@,
        "request_id"@ != "title"@,
        "request_id"@ != "prompt"@,
        "request_id"@ != "subject"@,
        "request_id"@ != "subject_kind"@,
        "request_id"@ != "assignees"@,
        "request_id"@ != "metadata"@,
        "title"@ != "prompt"@,
        "title"@ != "subject"@,
        "title"@ != "subject_kind"@,
        "title"@ != "assignees"@,
        "title"@ != "metadata"@,
        "prompt"@ != "subject"@,
        "prompt"@ != "subject_kind"@,
        "prompt"@ != "assignees"@,
        "prompt"@ != "metadata"@,
        "subject"@ != "subject_kind"@,
        "subject"@ != "assignees"@,
        "subject"@ != "metadata"@,
        "subject_kind"@ != "assignees"@,
        "subject_kind"@ != "metadata"@,
        "assignees"@ != "metadata"@,
{
    reveal_strlit("kind");
    reveal_strlit("node");
    reveal_strlit("request_id");
    reveal_strlit("title");
    reveal_strlit("prompt");
    reveal_strlit("subject");
    reveal_strlit("subject_kind");
    reveal_strlit("assignees");
    reveal_strlit("metadata");
    assert("kind"@.len() == 4 && "node"@.len() == 4 && "request_id"@.len() == 10 && "title"@.len() == 5 && "prompt"@.len() == 6 && "subject"@.len() == 7 && "subject_kind"@.len() == 12 && "assignees"@.len() == 9 && "metadata"@.len() == 8);
    assert("kind"@[0] == 'k');
    assert("node"@[0] == 'n');
}

/// Unless it is told to poll, a node that waits suspends the run, and shows the
/// host what there is to review.
pub proof fn waiting_suspends_the_run(
    ctx: ContextView,
    config: JsonView,
    diagnostics: Seq<NullResolutionView>,
    answer: Option<OutcomeView>,
    request: RequestView,
)
    requires
        still_waits(ctx, config, request, answer),
        config.text_at("wait_mode"@) != Some("poll"@),
    ensures
        approval_step(ctx, config, diagnostics, answer) matches StepView::Finish {
            withdraw,
            result: Ok(out),
        } && {
            &&& withdraw is None
            &&& out.items.len() == 0
            &&& out.meta is None
            &&& out.control matches Some(NodeControlView::Interrupt { id, payload }) && {
                &&& id == ctx.node.id
                &&& payload.text_at("kind"@) == Some("approval"@)
                &&& payload.text_at("node"@) == Some(ctx.node.id)
                &&& payload.text_at("request_id"@) == Some(request.request_id)
                &&& reads_text(payload.get("title"@), request.title)
                &&& reads_text(payload.get("prompt"@), request.prompt)
                &&& payload.get("subject"@) == Some(request.subject)
                &&& payload.text_at("subject_kind"@) == Some(request.subject_kind)
                &&& payload.get("metadata"@) == Some(request.metadata)
                &&& payload.get("assignees"@) matches Some(JsonView::Array(named))
                    && named.len() == request.assignees.len() && forall|i: int|
                    0 <= i < named.len() ==> #[trigger] named[i] == JsonView::String(
                        request.assignees[i],
                    )
            }
        },
{
    lemma_shown_keys();
    let entries = interrupt_payload(request)->Object_0;
    lemma_member_reads(entries, 0);
    lemma_member_reads(entries, 1);
    lemma_member_reads(entries, 2);
    lemma_member_reads(entries, 3);
    lemma_member_reads(entries, 4);
    lemma_member_reads(entries, 5);
    lemma_member_reads(entries, 6);
    lemma_member_reads(entries, 7);
    lemma_member_reads(entries, 8);
}

proof fn lemma_poll_keys()
    ensures
        "polls"@ != "request_id"@,
        "polls"@ != "decision"@,
        "request_id"@ != "decision"@,
{
    reveal_strlit("polls");
    reveal_strlit("request_id");
    reveal_strlit("decision");
    assert("polls"@.len() == 5 && "request_id"@.len() == 10 && "decision"@.len() == 8);
}

/// A node that polls counts the poll and asks to run again after the configured
/// gap, as long as fewer polls are spent than are allowed.
pub proof fn polls_are_counted(
    ctx: ContextView,
    config: JsonView,
    diagnostics: Seq<NullResolutionView>,
    answer: Option<OutcomeView>,
    request: RequestView,
    allowed: u64,
    gap: u64,
)
    requires
        still_waits(ctx, config, request, answer),
        config.text_at("wait_mode"@) == Some("poll"@),
        configured(config, "max_polls"@, allowed) || (allowed == 60 && config.get(
            "max_polls"@,
        ) is None),
        configured(config, "poll_interval_ms"@, gap) || (gap == 1000 && config.get(
            "poll_interval_ms"@,
        ) is None),
        polls_spent(ctx) < allowed,
    ensures
        approval_step(ctx, config, diagnostics, answer) matches StepView::Finish {
            withdraw,
            result: Ok(out),
        } && {
            &&& withdraw is None
            &&& out.items.len() == 0
            &&& out.control == Some(NodeControlView::Reenter { after_ms: gap })
            &&& out.meta matches Some(meta) && meta.at("polls"@) == JsonView::Number(
                NumberView::PosInt((polls_spent(ctx) + 1) as u64),
            ) && meta.text_at("request_id"@) == Some(request.request_id)
        },
{
    lemma_poll_keys();
    let entries = poll_meta(
        polls_spent(ctx),
        request.request_id,
    )->Object_0;
    lemma_member_reads(entries, 0);
    lemma_member_reads(entries, 1);
}

/// The polls a node has spent are those its slot says, and none where it says
/// nothing.
pub proof fn spent_polls_are_read_from_the_slot(ctx: ContextView, n: u64)
    ensures
        ctx.nodes.at(ctx.node.id).at("polls"@) == JsonView::Number(NumberView::PosInt(n))
            ==> polls_spent(ctx) == n,
        ctx.nodes.get(ctx.node.id) is None ==> polls_spent(ctx) == 0,
{
}

proof fn lemma_silent_keys()
    ensures
        "approved"@ != "timed_out"@,
        "approved"@ != "request_id"@,
        "approved"@ != "subject"@,
        "approved"@ != "subject_kind"@,
        "approved"@ != "edited"@,
        "approved"@ != "decided_by"@,
        "approved"@ != "comment"@,
        "approved"@ != "input"@,
        "timed_out"@ != "request_id"@,
        "timed_out"@ != "subject"@,
        "timed_out"@ != "subject_kind"@,
        "timed_out"@ != "edited"@,
        "timed_out"@ != "decided_by"@,
        "timed_out"@ != "comment"@,
        "timed_out"@ != "input"@,
        "request_id"@ != "subject"@,
        "request_id"@ != "subject_kind"@,
        "request_id"@ != "edited"@,
        "request_id"@ != "decided_by"@,
        "request_id"@ != "comment"@,
        "request_id"@ != "input"@,
        "subject"@ != "subject_kind"@,
        "subject"@ != "edited"@,
        "subject"@ != "decided_by"@,
        "subject"@ != "comment"@,
        "subject"@ != "input"@,
        "subject_kind"@ != "edited"@,
        "subject_kind"@ != "decided_by"@,
        "subject_kind"@ != "comment"@,
        "subject_kind"@ != "input"@,
        "edited"@ != "decided_by"@,
        "edited"@ != "comment"@,
        "edited"@ != "input"@,
        "decided_by"@ != "comment"@,
        "decided_by"@ != "input"@,
        "comment"@ != "input"@,
{
    reveal_strlit("approved");
    reveal_strlit("timed_out");
    reveal_strlit("request_id");
    reveal_strlit("subject");
    reveal_strlit("subject_kind");
    reveal_strlit("edited");
    reveal_strlit("decided_by");
    reveal_strlit("comment");
    reveal_strlit("input");
    assert("approved"@.len() == 8 && "timed_out"@.len() == 9 && "request_id"@.len() == 10 && "subject"@.len() == 7 && "subject_kind"@.len() == 12 && "edited"@.len() == 6 && "decided_by"@.len() == 10 && "comment"@.len() == 7 && "input"@.len() == 5);
    assert("request_id"@[0] == 'r');
    assert("decided_by"@[0] == 'd');
    assert("subject"@[0] == 's');
    assert("comment"@[0] == 'c');
}

/// The item of a review that nobody answered: not approved, timed out, with what
/// was to be reviewed and what arrived.
pub open spec fn tells_silence(item: JsonView, ctx: ContextView, request: RequestView) -> bool {
    &&& item.get("approved"@) == Some(JsonView::Bool(false))
    &&& item.get("timed_out"@) == Some(JsonView::Bool(true))
    &&& item.get("edited"@) == Some(JsonView::Bool(false))
    &&& item.get("subject"@) == Some(request.subject)
    &&& item.get("subject_kind"@) == Some(JsonView::String(request.subject_kind))
    &&& item.get("request_id"@) == Some(JsonView::String(request.request_id))
    &&& item.get("decided_by"@) == Some(JsonView::Null)
    &&& item.text_at("comment"@) is Some
    &&& arrived(ctx, item.at("input"@))
}

/// The slot of a review that nobody answered reads as not approved.
pub open spec fn records_silence(meta: JsonView, request: RequestView) -> bool {
    let made = meta.at("decision"@);
    &&& made.get("approved"@) == Some(JsonView::Bool(false))
    &&& made.get("timed_out"@) == Some(JsonView::Bool(true))
    &&& made.get("decided_by"@) == Some(JsonView::Null)
    &&& made.get("request_id"@) == Some(JsonView::String(request.request_id))
}

proof fn lemma_silence(ctx: ContextView, request: RequestView, polls: u64, max_polls: u64)
    ensures
        tells_silence(
            timed_out_json(request, max_polls, first_json(ctx.input)),
            ctx,
            request,
        ),
        records_silence(timeout_meta(polls, request.request_id, max_polls), request),
{
    lemma_silent_keys();
    lemma_poll_keys();
    let entries = timed_out_json(
        request,
        max_polls,
        first_json(ctx.input),
    )->Object_0;
    lemma_member_reads(entries, 0);
    lemma_member_reads(entries, 1);
    lemma_member_reads(entries, 2);
    lemma_member_reads(entries, 3);
    lemma_member_reads(entries, 4);
    lemma_member_reads(entries, 5);
    lemma_member_reads(entries, 6);
    lemma_member_reads(entries, 7);
    lemma_member_reads(entries, 8);
    let outer = timeout_meta(polls, request.request_id, max_polls)->Object_0;
    lemma_member_reads(outer, 2);
    let inner = outer[2].1->Object_0;
    lemma_member_reads(inner, 0);
    lemma_member_reads(inner, 1);
    lemma_member_reads(inner, 2);
    lemma_member_reads(inner, 4);
}

/// Once the polls are spent the review is taken back, and silence is never taken
/// for consent: the node fails, unless it is told to route the silence or to
/// treat it as a rejection.
pub proof fn silence_is_no_consent(
    ctx: ContextView,
    config: JsonView,
    diagnostics: Seq<NullResolutionView>,
    answer: Option<OutcomeView>,
    request: RequestView,
    allowed: u64,
)
    requires
        still_waits(ctx, config, request, answer),
        config.text_at("wait_mode"@) == Some("poll"@),
        configured(config, "max_polls"@, allowed) || (allowed == 60 && config.get(
            "max_polls"@,
        ) is None),
        polls_spent(ctx) >= allowed,
    ensures
        approval_step(ctx, config, diagnostics, answer) matches StepView::Finish {
            withdraw,
            result,
        } && {
            let policy = config.text_at("on_timeout"@);
            let rejects = config.text_at("on_reject"@);
            &&& withdraw matches Some(taken) && taken.request_id == request.request_id
            &&& policy != Some("route"@) && policy != Some("reject"@) ==> result is Err
            &&& policy == Some("reject"@) && rejects == Some("error"@) ==> result is Err
            &&& policy == Some("reject"@) && rejects == Some("drop"@) ==> (result matches Ok(out)
                && out.items.len() == 0 && out.port is None)
            &&& policy == Some("reject"@) && rejects != Some("drop"@) && rejects != Some("error"@)
                ==> (result matches Ok(out) && out.port == Some("rejected"@) && out.items.len()
                == 1 && tells_silence(out.items[0].json, ctx, request))
            &&& policy == Some("route"@) ==> (result matches Ok(out) && out.port == Some(
                "timeout"@,
            ) && out.items.len() == 1 && tells_silence(out.items[0].json, ctx, request))
            &&& result matches Ok(out) ==> (out.control is None && (out.meta matches Some(meta)
                && records_silence(meta, request)))
        },
{
    lemma_silence(ctx, request, polls_spent(ctx), allowed);
    reveal_strlit("route");
    reveal_strlit("reject");
    reveal_strlit("drop");
    reveal_strlit("error");
    assert("route"@.len() == 5 && "reject"@.len() == 6 && "drop"@.len() == 4 && "error"@.len()
        == 5);
}

/// A review that can be identified is asked for where its assignees are left out,
/// or are a list that names somebody; and it is refused where they are no list, or
/// a list that names nobody.
pub proof fn requests_are_made_where_somebody_can_answer(
    ctx: ContextView,
    config: JsonView,
    values: Seq<JsonView>,
    i: int,
)
    requires
        config.text_at("request_id"@) is Some || ctx.run.text_at("id"@) is Some,
    ensures
        config.get("assignees"@) is None ==> request_of(ctx, config) is Ok && request_of(
            ctx,
            config,
        )->Ok_0.assignees.len() == 0,
        config.get("assignees"@) == Some(JsonView::Array(values)) && 0 <= i < values.len()
            && values[i] is String ==> request_of(ctx, config) is Ok && request_of(
            ctx,
            config,
        )->Ok_0.assignees.contains(values[i]->String_0),
        config.get("assignees"@) == Some(JsonView::Array(values)) && (forall|k: int|
            0 <= k < values.len() ==> !((#[trigger] values[k]) is String)) ==> request_of(
            ctx,
            config,
        ) is Err,
        config.get("assignees"@) is Some && !(config.get("assignees"@)->0 is Array) ==> request_of(
            ctx,
            config,
        ) is Err,
{
    if config.get("assignees"@) == Some(JsonView::Array(values)) {
        if 0 <= i < values.len() && values[i] is String {
            lemma_assigned(values, values.len(), i);
        }
        if forall|k: int| 0 <= k < values.len() ==> !((#[trigger] values[k]) is String) {
            lemma_nobody(values, values.len());
        }
    }
}

proof fn lemma_assigned(values: Seq<JsonView>, n: nat, i: int)
    requires
        0 <= i < n <= values.len(),
        values[i] is String,
    ensures
        texts_in(values, n).contains(values[i]->String_0),
    decreases n,
{
    let rest = texts_in(values, (n - 1) as nat);
    let all = texts_in(values, n);
    if i == n - 1 {
        assert(all[rest.len() as int] == values[i]->String_0);
    } else {
        lemma_assigned(values, (n - 1) as nat, i);
        let k = choose|k: int| 0 <= k < rest.len() && rest[k] == values[i]->String_0;
        assert(all[k] == values[i]->String_0);
    }
}

proof fn lemma_nobody(values: Seq<JsonView>, n: nat)
    requires
        n <= values.len(),
        forall|k: int| 0 <= k < values.len() ==> !((#[trigger] values[k]) is String),
    ensures
        texts_in(values, n).len() == 0,
    decreases n,
{
    if n > 0 {
        lemma_nobody(values, (n - 1) as nat);
        assert(!(values[n - 1] is String));
    }
}

/// What is said of a silence counts the polls it lasted.
pub proof fn silence_is_counted(polls: u64)
    ensures
        occurs_in(
            silence(polls),
            decimal(polls as nat),
        ),
{
    let count = decimal(polls as nat);
    lemma_occurs_between("no decision after "@, count, " polls"@);
}

/// A setting that has to be positive is read as it is where it is, and by default
/// where it is left out, is zero, or is no such number.
pub proof fn positive_settings_are_read_as_written(
    config: JsonView,
    key: Seq<char>,
    n: u64,
    default: u64,
)
    ensures
        config.get(key) == Some(JsonView::Number(NumberView::PosInt(n))) && n > 0
            ==> positive_of(config, key, default) == n,
        config.get(key) == Some(JsonView::Number(NumberView::PosInt(0)))
            ==> positive_of(config, key, default) == default,
        config.get(key) is None ==> positive_of(config, key, default)
            == default,
        config.get(key) is Some && !(config.get(key)->0 is Number)
            ==> positive_of(config, key, default) == default,
{
}

} // verus!
