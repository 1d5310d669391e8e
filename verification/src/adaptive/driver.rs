//! Driving an episode to an answer.
//!
//! The state of a goal under way lives in its episode record; nothing about it
//! is held here. One pass starts or continues the episode, plans, runs, closes,
//! and then keeps or repairs what it ran.
use vstd::prelude::*;

use crate::adaptive::closing::{
    fresh_record, new_episode, next_of, stalled_after, Next, NextView,
};
use crate::adaptive::contracts::{Approach, ApproachView, Budget, Goal, GoalView, Verdict, VerdictView};
use crate::adaptive::ledger::{Episode, EpisodeStatus, EpisodeView, Lesson};

verus! {

/// Begins an episode, or goes on with the one under way. The second result
/// says whether the record is new and has to be saved.
pub fn start(held: Option<Episode>, episode: &str, goal: &Goal, now: &str) -> (r: (Episode, bool))
    ensures
        match held {
            Some(record) => r.0@ == record@ && !r.1,
            None => r.0@ == fresh_record(episode@, goal@, now@) && r.1,
        },
{
    match held {
        Some(record) => (record, false),
        None => (new_episode(episode, goal, now), true),
    }
}

/// Where times come from: the library has no clock of its own.
pub trait Clock {
    /// The current time, as RFC 3339 writes it.
    fn now(&self) -> String;
}

/// Begins an episode by a clock, or goes on with the one under way. The clock
/// is read only for a new record, which holds one time for both its beginning
/// and its last change.
pub fn begin<C: Clock>(clock: &C, held: Option<Episode>, episode: &str, goal: &Goal) -> (r: (
    Episode,
    bool,
))
    ensures
        match held {
            Some(record) => r.0@ == record@ && !r.1,
            None => r.1 && exists|now: Seq<char>| #[trigger]
                fresh_record(episode@, goal@, now) == r.0@,
        },
{
    match held {
        Some(record) => start(Some(record), episode, goal, ""),
        None => {
            let now = clock.now();
            let begun = start(None, episode, goal, now.as_str());
            assert(fresh_record(episode@, goal@, now@) == begun.0@);
            begun
        },
    }
}

/// The number of the attempt that follows a record.
pub fn attempt_number(record: &Episode) -> (r: u32)
    requires
        record.attempt < u32::MAX,
    ensures
        r == record.attempt + 1,
{
    record.attempt + 1
}

/// What is done with a graph once its attempt has been closed.
#[derive(Debug, PartialEq, Eq)]
pub enum FollowUp {
    /// Keep it: it was written for this goal and achieved it.
    Keep,
    /// Propose a repaired copy of this stored workflow.
    Repair(String),
    /// Leave it as it is.
    Nothing,
}

#[verifier::ext_equal]
pub enum FollowUpView {
    Keep,
    Repair(Seq<char>),
    Nothing,
}

impl View for FollowUp {
    type V = FollowUpView;

    open spec fn view(&self) -> FollowUpView {
        match *self {
            FollowUp::Keep => FollowUpView::Keep,
            FollowUp::Repair(id) => FollowUpView::Repair(id@),
            FollowUp::Nothing => FollowUpView::Nothing,
        }
    }
}

/// What is done with a graph: an authored one that satisfied is kept, and a
/// stored one that fell short through its own fault is repaired.
pub open spec fn follow_up_of(satisfied: bool, approach: ApproachView, suspect: bool) -> FollowUpView {
    match approach {
        ApproachView::Authored { .. } => if satisfied {
            FollowUpView::Keep
        } else {
            FollowUpView::Nothing
        },
        ApproachView::Selected { workflow_id, .. } => if !satisfied && suspect {
            FollowUpView::Repair(workflow_id)
        } else {
            FollowUpView::Nothing
        },
        ApproachView::Variant { parent_id, .. } => if !satisfied && suspect {
            FollowUpView::Repair(parent_id)
        } else {
            FollowUpView::Nothing
        },
    }
}

/// What to do with the graph of a closed attempt. `suspect` is whether the
/// diagnosis blames the graph.
pub fn follow_up(satisfied: bool, approach: &Approach, suspect: bool) -> (r: FollowUp)
    ensures
        r@ == follow_up_of(satisfied, approach@, suspect),
{
    match approach {
        Approach::Authored { .. } => if satisfied {
            FollowUp::Keep
        } else {
            FollowUp::Nothing
        },
        Approach::Selected { workflow_id, .. } => if !satisfied && suspect {
            FollowUp::Repair(workflow_id.clone())
        } else {
            FollowUp::Nothing
        },
        Approach::Variant { parent_id, .. } => if !satisfied && suspect {
            FollowUp::Repair(parent_id.clone())
        } else {
            FollowUp::Nothing
        },
    }
}

/// How an episode ended.
#[derive(Debug, PartialEq, Eq)]
pub struct Finished {
    /// Satisfied, or stood down with a reason.
    pub status: EpisodeStatus,
    /// How many attempts it took.
    pub attempts: u32,
    /// What the judge said about the last one.
    pub verdict: Verdict,
    /// What was worth remembering.
    pub lessons: Vec<Lesson>,
}

/// Whether the episode goes on after what was decided, and how it stands
/// otherwise.
pub fn ending(next: &Next) -> (r: Option<EpisodeStatus>)
    ensures
        r is None <==> next@ == NextView::Retry,
        r matches Some(status) ==> status@ == next@.status(),
{
    match next {
        Next::Retry => None,
        Next::Done => Some(EpisodeStatus::Satisfied),
        Next::StandDown(reason) => Some(EpisodeStatus::StoodDown(reason.clone())),
    }
}

/// Puts together how an episode ended. The attempts come from its record, and
/// are none where it has no record.
pub fn finish(
    status: EpisodeStatus,
    record: Option<Episode>,
    verdict: Verdict,
    lessons: Vec<Lesson>,
) -> (r: Finished)
    ensures
        r.status == status,
        r.verdict == verdict,
        r.lessons == lessons,
        r.attempts == (match record {
            Some(held) => held.attempt,
            None => 0,
        }),
{
    let attempts: u32 = match record {
        Some(held) => held.attempt,
        None => 0,
    };
    Finished { status, attempts, verdict, lessons }
}

/// The stall count after the first `n` of a run of verdicts.
pub open spec fn stalls(verdicts: Seq<VerdictView>, from: u32, n: nat) -> u32
    decreases n,
{
    if n == 0 {
        from
    } else {
        stalled_after(verdicts[n - 1], stalls(verdicts, from, (n - 1) as nat)) as u32
    }
}

/// Attempt by attempt, each of these verdicts ordered another try.
pub open spec fn all_retried(verdicts: Seq<VerdictView>, held: EpisodeView, budget: Budget) -> bool {
    forall|i: int|
        0 <= i < verdicts.len() ==> #[trigger] next_of(
            verdicts[i],
            (held.attempt + 1 + i) as u32,
            stalls(verdicts, held.stalled, (i + 1) as nat),
            budget,
        ) == NextView::Retry
}

/// An episode ends by itself: whatever the verdicts are, fewer attempts are
/// ordered than the budget allows.
pub proof fn episodes_end(verdicts: Seq<VerdictView>, held: EpisodeView, budget: Budget)
    requires
        all_retried(verdicts, held, budget),
        held.attempt + verdicts.len() < u32::MAX,
        verdicts.len() > 0,
    ensures
        held.attempt + verdicts.len() < budget.max_attempts,
{
    let i = verdicts.len() - 1;
    assert(next_of(
        verdicts[i],
        (held.attempt + 1 + i) as u32,
        stalls(verdicts, held.stalled, (i + 1) as nat),
        budget,
    ) == NextView::Retry);
}

/// Starting an episode twice does not restart it.
pub proof fn starting_twice_changes_nothing(
    held: Option<EpisodeView>,
    episode: Seq<char>,
    goal: GoalView,
    first: Seq<char>,
    again: Seq<char>,
)
    ensures
        ({
            let record = crate::adaptive::closing::continued(held, episode, goal, first);
            crate::adaptive::closing::continued(Some(record), episode, goal, again) == record
        }),
{
}

} // verus!
