//! What happens after a run: record it, score it, decide.
//!
//! An attempt is recorded however it was judged. One that failed and was not
//! kept would be made again.
use vstd::prelude::*;

use crate::adaptive::contracts::{
    blocker_text, Approach, ApproachView, Budget, Goal, GoalView, Verdict, VerdictView,
};
use crate::adaptive::ledger::memory::{episode_in, score_in, with_episode, MemoryLedger};
use crate::adaptive::ledger::{
    record_id, Episode, EpisodeStatus, EpisodeView, LedgerRow, RowView, StatusView,
};
use crate::text::{decimal, decimal_text, opt_view};

verus! {

/// What the loop should do next.
#[derive(Debug, PartialEq, Eq)]
pub enum Next {
    /// The goal was met.
    Done,
    /// Attempt it again.
    Retry,
    /// Stop without success, and why.
    StandDown(String),
}

#[verifier::ext_equal]
pub enum NextView {
    Done,
    Retry,
    StandDown(Seq<char>),
}

impl View for Next {
    type V = NextView;

    open spec fn view(&self) -> NextView {
        match *self {
            Next::Done => NextView::Done,
            Next::Retry => NextView::Retry,
            Next::StandDown(reason) => NextView::StandDown(reason@),
        }
    }
}

impl NextView {
    /// The status an episode has once this was decided.
    pub open spec fn status(self) -> StatusView {
        match self {
            NextView::Done => StatusView::Satisfied,
            NextView::Retry => StatusView::Running,
            NextView::StandDown(reason) => StatusView::StoodDown(reason),
        }
    }
}

impl Next {
    /// The status an episode has once this was decided.
    pub fn status(&self) -> (r: EpisodeStatus)
        ensures
            r@ == self@.status(),
    {
        match self {
            Next::Done => EpisodeStatus::Satisfied,
            Next::Retry => EpisodeStatus::Running,
            Next::StandDown(reason) => EpisodeStatus::StoodDown(reason.clone()),
        }
    }
}

/// Why a run that did not succeed is not tried again: a terminal blocker, a
/// spent budget, or a stall.
pub open spec fn stand_down_reason(
    verdict: VerdictView,
    attempt: u32,
    stalled: u32,
    budget: Budget,
) -> Seq<char> {
    if !verdict.blocker.can_continue() {
        blocker_text(verdict.blocker) + " — "@ + verdict.gap
    } else if attempt >= budget.max_attempts {
        "out of attempts after "@ + decimal(attempt as nat)
    } else {
        decimal(stalled as nat) + " attempts in a row made no progress"@
    }
}

/// What to do after an attempt.
pub open spec fn next_of(
    verdict: VerdictView,
    attempt: u32,
    stalled: u32,
    budget: Budget,
) -> NextView {
    if verdict.satisfied {
        NextView::Done
    } else if verdict.worth_retrying(attempt, stalled, budget) {
        NextView::Retry
    } else {
        NextView::StandDown(stand_down_reason(verdict, attempt, stalled, budget))
    }
}

/// Decides what to do after an attempt.
pub fn decide_next(verdict: &Verdict, attempt: u32, stalled: u32, budget: &Budget) -> (r: Next)
    ensures
        r@ == next_of(verdict@, attempt, stalled, *budget),
{
    if verdict.satisfied {
        return Next::Done;
    }
    if verdict.should_retry(attempt, stalled, budget) {
        return Next::Retry;
    }
    let reason = if !verdict.blocker.continuable() {
        let mut text = verdict.blocker.name().to_owned();
        text.append(" — ");
        text.append(verdict.gap.as_str());
        text
    } else if budget.exhausted(attempt) {
        let mut text = "out of attempts after ".to_owned();
        text.append(decimal_text(attempt as u64).as_str());
        text
    } else {
        let mut text = decimal_text(stalled as u64);
        text.append(" attempts in a row made no progress");
        text
    };
    Next::StandDown(reason)
}

/// Why an approach was taken.
pub fn why(approach: &Approach) -> (r: String)
    ensures
        r@ == approach@.why(),
{
    match approach {
        Approach::Selected { why, .. } => why.clone(),
        Approach::Authored { why, .. } => why.clone(),
        Approach::Variant { why, .. } => why.clone(),
    }
}

/// The outcome of an attempt in a line.
pub open spec fn outcome_of(verdict: VerdictView) -> Seq<char> {
    if verdict.satisfied {
        "satisfied"@
    } else if verdict.gap.len() == 0 {
        blocker_text(verdict.blocker)
    } else {
        verdict.gap
    }
}

/// The outcome of an attempt in a line.
pub fn outcome_line(verdict: &Verdict) -> (r: String)
    ensures
        r@ == outcome_of(verdict@),
{
    if verdict.satisfied {
        "satisfied".to_owned()
    } else if verdict.gap.as_str().is_empty() {
        verdict.blocker.name().to_owned()
    } else {
        verdict.gap.clone()
    }
}

/// Why an attempt fell short; nothing where it did not.
pub open spec fn cause_of(verdict: VerdictView) -> Seq<char> {
    if verdict.satisfied {
        Seq::empty()
    } else {
        verdict.gap
    }
}

/// The stall count after an attempt: only attempts that get no closer count.
pub open spec fn stalled_after(verdict: VerdictView, stalled: u32) -> int {
    if verdict.satisfied || verdict.advanced {
        0
    } else {
        stalled + 1
    }
}

/// The ledger row an attempt leaves behind.
pub open spec fn row_of(
    episode: Seq<char>,
    attempt: u32,
    approach: ApproachView,
    verdict: VerdictView,
    now: Seq<char>,
) -> RowView {
    RowView {
        id: Seq::empty(),
        episode,
        attempt,
        approach_sig: approach.signature(),
        approach_desc: approach.why(),
        workflow_id: approach.workflow(),
        outcome: outcome_of(verdict),
        cause: cause_of(verdict),
        at: now,
        satisfied: verdict.satisfied,
        advanced: verdict.advanced,
    }
}

/// The record of an episode that has not been attempted.
pub open spec fn fresh_record(id: Seq<char>, goal: GoalView, now: Seq<char>) -> EpisodeView {
    EpisodeView {
        id,
        goal,
        scope_key: None,
        status: StatusView::Running,
        attempt: 0,
        stalled: 0,
        started_at: now,
        updated_at: now,
    }
}

/// The record of an episode that has not been attempted.
pub fn new_episode(id: &str, goal: &Goal, now: &str) -> (r: Episode)
    ensures
        r@ == fresh_record(id@, goal@, now@),
{
    Episode {
        id: id.to_owned(),
        goal: goal.clone(),
        scope_key: None,
        status: EpisodeStatus::Running,
        attempt: 0,
        stalled: 0,
        started_at: now.to_owned(),
        updated_at: now.to_owned(),
    }
}

/// What closing an attempt writes, in the order in which it is written: the
/// row first, then the score, and the record last, so that a record never
/// claims an attempt that left no row.
#[derive(Debug, PartialEq, Eq)]
pub struct Closing {
    /// The row to append.
    pub row: LedgerRow,
    /// The workflow to score, where one was run.
    pub scored: Option<String>,
    /// The episode record to save.
    pub record: Episode,
    /// What to do next.
    pub next: Next,
    /// Attempts in a row that made no progress.
    pub stalled: u32,
}

#[verifier::ext_equal]
pub struct ClosingView {
    pub row: RowView,
    pub scored: Option<Seq<char>>,
    pub record: EpisodeView,
    pub next: NextView,
    pub stalled: u32,
}

impl View for Closing {
    type V = ClosingView;

    open spec fn view(&self) -> ClosingView {
        ClosingView {
            row: self.row@,
            scored: opt_view(self.scored),
            record: self.record@,
            next: self.next@,
            stalled: self.stalled,
        }
    }
}

/// What closing an attempt writes, given the record it continues.
pub open spec fn closing_of(
    held: EpisodeView,
    attempt: u32,
    approach: ApproachView,
    verdict: VerdictView,
    budget: Budget,
    episode: Seq<char>,
    now: Seq<char>,
) -> ClosingView {
    let stalled = stalled_after(verdict, held.stalled) as u32;
    let next = next_of(verdict, attempt, stalled, budget);
    ClosingView {
        row: row_of(episode, attempt, approach, verdict, now),
        scored: approach.workflow(),
        record: EpisodeView {
            attempt,
            stalled,
            updated_at: now,
            status: next.status(),
            ..held
        },
        next,
        stalled,
    }
}

/// The record an attempt continues: the one held, or a fresh one.
pub open spec fn continued(
    held: Option<EpisodeView>,
    episode: Seq<char>,
    goal: GoalView,
    now: Seq<char>,
) -> EpisodeView {
    match held {
        Some(record) => record,
        None => fresh_record(episode, goal, now),
    }
}

/// Works out what closing an attempt writes: the row, the score and the
/// episode record, whatever the verdict was.
pub fn close(
    goal: &Goal,
    episode: &str,
    attempt: u32,
    approach: &Approach,
    verdict: &Verdict,
    budget: &Budget,
    held: Option<Episode>,
    now: &str,
) -> (r: Closing)
    requires
        !(verdict.satisfied || verdict.advanced) ==> (held matches Some(record) ==> record.stalled
            < u32::MAX),
    ensures
        r@ == closing_of(
            continued(opt_view(held), episode@, goal@, now@),
            attempt,
            approach@,
            verdict@,
            *budget,
            episode@,
            now@,
        ),
{
    let mut record = match held {
        Some(record) => record,
        None => new_episode(episode, goal, now),
    };
    let scored = match approach {
        Approach::Selected { workflow_id, .. } => Some(workflow_id.clone()),
        Approach::Variant { parent_id, .. } => Some(parent_id.clone()),
        Approach::Authored { .. } => None,
    };
    let workflow_id = crate::text::copy_opt(&scored);
    let cause = if verdict.satisfied {
        String::new()
    } else {
        verdict.gap.clone()
    };
    assert(cause@ =~= cause_of(verdict@));
    let row = LedgerRow {
        id: String::new(),
        episode: episode.to_owned(),
        attempt,
        approach_sig: approach.signature(),
        approach_desc: why(approach),
        workflow_id,
        outcome: outcome_line(verdict),
        cause,
        at: now.to_owned(),
        satisfied: verdict.satisfied,
        advanced: verdict.advanced,
    };
    let stalled: u32 = if verdict.satisfied || verdict.advanced {
        0
    } else {
        record.stalled + 1
    };
    let next = decide_next(verdict, attempt, stalled, budget);
    record.attempt = attempt;
    record.stalled = stalled;
    record.updated_at = now.to_owned();
    record.status = next.status();
    Closing { row, scored, record, next, stalled }
}

/// One finished attempt, closed out.
#[derive(Debug, PartialEq, Eq)]
pub struct Closed {
    /// What the judge concluded.
    pub verdict: Verdict,
    /// The ledger row this attempt left behind.
    pub row_id: String,
    /// What to do next.
    pub next: Next,
    /// Consecutive non-advancing attempts.
    pub stalled: u32,
}

/// Closes an attempt against a ledger: appends its row, scores its workflow
/// and saves its episode.
pub fn close_in(
    ledger: &mut MemoryLedger,
    bucket: &str,
    goal: &Goal,
    episode: &str,
    attempt: u32,
    approach: &Approach,
    verdict: Verdict,
    budget: &Budget,
    now: &str,
) -> (r: Closed)
    requires
        !(verdict.satisfied || verdict.advanced) ==> (episode_in(
            old(ledger)@.episodes,
            bucket@,
            episode@,
        ) matches Some(record) ==> record.stalled < u32::MAX),
    ensures
        ({
            let held = continued(
                episode_in(old(ledger)@.episodes, bucket@, episode@),
                episode@,
                goal@,
                now@,
            );
            let plan = closing_of(
                held,
                attempt,
                approach@,
                verdict@,
                *budget,
                episode@,
                now@,
            );
            let id = record_id("ldg"@, old(ledger)@.rows.len() + 1);
            &&& r.verdict == verdict
            &&& r.row_id@ == id
            &&& r.next@ == plan.next
            &&& r.stalled == plan.stalled
            &&& final(ledger)@.rows == old(ledger)@.rows.push(RowView { id, ..plan.row })
            &&& final(ledger)@.episodes == with_episode(
                old(ledger)@.episodes,
                bucket@,
                plan.record,
            )
            &&& final(ledger)@.lessons == old(ledger)@.lessons
            &&& final(ledger)@.citations == old(ledger)@.citations
            &&& forall|b: Seq<char>, w: Seq<char>| #[trigger]
                score_in(final(ledger)@.scores, b, w) == (if b == bucket@ && plan.scored == Some(
                    w,
                ) {
                    score_in(old(ledger)@.scores, b, w).after_run(verdict.satisfied)
                } else {
                    score_in(old(ledger)@.scores, b, w)
                })
        }),
{
    let held = ledger.episode(bucket, episode);
    let plan = close(goal, episode, attempt, approach, &verdict, budget, held, now);
    let row_id = ledger.append(&plan.row);
    match &plan.scored {
        Some(id) => ledger.score_workflow(bucket, id.as_str(), verdict.satisfied),
        None => {},
    }
    ledger.save_episode(bucket, &plan.record);
    Closed { verdict, row_id, next: plan.next, stalled: plan.stalled }
}

/// A retry is only ever ordered while attempts are left, progress is being
/// made, and nothing rules success out.
pub proof fn retries_are_bounded(verdict: VerdictView, attempt: u32, stalled: u32, budget: Budget)
    ensures
        next_of(verdict, attempt, stalled, budget) == NextView::Retry ==> attempt
            < budget.max_attempts && stalled < budget.max_stalled && !verdict.satisfied,
        next_of(verdict, attempt, stalled, budget) == NextView::Done <==> verdict.satisfied,
{
}

/// An attempt that gets closer clears the stall count.
pub proof fn progress_clears_the_stall(
    held: EpisodeView,
    attempt: u32,
    approach: ApproachView,
    verdict: VerdictView,
    budget: Budget,
    episode: Seq<char>,
    now: Seq<char>,
)
    requires
        verdict.advanced,
    ensures
        closing_of(held, attempt, approach, verdict, budget, episode, now).stalled == 0,
        closing_of(held, attempt, approach, verdict, budget, episode, now).record.stalled == 0,
{
}

} // verus!
