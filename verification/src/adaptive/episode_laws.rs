//! What holds of every episode: how an attempt is closed, what follows from it,
//! and what the ledger keeps.
use vstd::prelude::*;

use crate::adaptive::closing::{closing_of, continued, fresh_record, next_of, NextView};
use crate::adaptive::contracts::{
    blocker_text, ApproachView, Blocker, Budget, GoalView, VerdictView,
};
use crate::adaptive::driver::{follow_up_of, FollowUpView};
use crate::adaptive::ledger::{
    record_id, EpisodeView, LessonKind, LessonView, RowView, Score, StatusView,
};
use crate::adaptive::ledger::memory::{episodes_for, lessons_for, rows_of, scored_lessons};
use crate::adaptive::promotion::{
    champions_are_unique, is_champion, is_first_member, proven, rate_below, standing_of, Standing,
};
use crate::text::{decimal, zero_padded};

verus! {

/// Another attempt is ordered exactly where the goal is not met, nothing but a
/// person could help, attempts are left, and patience is; a goal that is met is
/// done; and everything else is given up.
pub proof fn another_attempt_is_ordered_where_it_can_help(
    verdict: VerdictView,
    attempt: u32,
    stalled: u32,
    budget: Budget,
)
    ensures
        verdict.satisfied ==> next_of(verdict, attempt, stalled, budget) is Done,
        !verdict.satisfied && verdict.blocker != Blocker::NeedsInput && attempt
            < budget.max_attempts && stalled < budget.max_stalled ==> next_of(
            verdict,
            attempt,
            stalled,
            budget,
        ) is Retry,
        !verdict.satisfied && (verdict.blocker == Blocker::NeedsInput || attempt
            >= budget.max_attempts || stalled >= budget.max_stalled) ==> next_of(
            verdict,
            attempt,
            stalled,
            budget,
        ) is StandDown,
{
}

/// An episode that is given up for want of input says what is missing.
pub proof fn missing_input_is_named(
    verdict: VerdictView,
    attempt: u32,
    stalled: u32,
    budget: Budget,
)
    requires
        !verdict.satisfied,
        verdict.blocker == Blocker::NeedsInput,
    ensures
        next_of(verdict, attempt, stalled, budget) matches NextView::StandDown(reason)
            && verdict.gap.is_suffix_of(reason),
{
    let front = blocker_text(verdict.blocker) + " — "@;
    let reason = front + verdict.gap;
    assert(reason.subrange(front.len() as int, reason.len() as int) =~= verdict.gap);
}

/// The row of a closed attempt tells it as it was: which attempt of which episode,
/// when, by what approach, and how it was judged.
pub proof fn rows_tell_their_attempt(
    held: EpisodeView,
    attempt: u32,
    approach: ApproachView,
    verdict: VerdictView,
    budget: Budget,
    episode: Seq<char>,
    now: Seq<char>,
)
    ensures
        ({
            let row = closing_of(held, attempt, approach, verdict, budget, episode, now).row;
            &&& row.episode == episode
            &&& row.attempt == attempt
            &&& row.at == now
            &&& row.satisfied == verdict.satisfied
            &&& row.advanced == verdict.advanced
            &&& verdict.satisfied ==> row.cause.len() == 0
            &&& !verdict.satisfied ==> row.cause == verdict.gap
            &&& verdict.satisfied ==> row.outcome == "satisfied"@
            &&& !verdict.satisfied && verdict.gap.len() > 0 ==> row.outcome == verdict.gap
            &&& approach matches ApproachView::Selected { workflow_id, why } ==> {
                &&& row.approach_sig == "selected:"@ + workflow_id
                &&& row.approach_desc == why
                &&& row.workflow_id == Some(workflow_id)
            }
            &&& approach matches ApproachView::Authored { why, fingerprint } ==> {
                &&& row.approach_sig == "authored:"@ + fingerprint
                &&& row.approach_desc == why
                &&& row.workflow_id is None
            }
            &&& approach matches ApproachView::Variant { parent_id, why } ==> {
                &&& row.approach_sig == "variant:"@ + parent_id
                &&& row.approach_desc == why
                &&& row.workflow_id == Some(parent_id)
            }
        }),
{
}

/// The record of an episode moves on with an attempt: to that attempt, with its
/// stall count and the time, and it stands as was decided; what it is about and
/// when it began stay. A stored workflow that ran is scored, and nothing else.
pub proof fn records_move_on_with_the_attempt(
    held: EpisodeView,
    attempt: u32,
    approach: ApproachView,
    verdict: VerdictView,
    budget: Budget,
    episode: Seq<char>,
    now: Seq<char>,
)
    requires
        held.stalled < u32::MAX,
    ensures
        ({
            let made = closing_of(held, attempt, approach, verdict, budget, episode, now);
            &&& verdict.satisfied || verdict.advanced ==> made.stalled == 0
            &&& !verdict.satisfied && !verdict.advanced ==> made.stalled == held.stalled + 1
            &&& made.next == next_of(verdict, attempt, made.stalled, budget)
            &&& made.record.id == held.id
            &&& made.record.goal == held.goal
            &&& made.record.scope_key == held.scope_key
            &&& made.record.started_at == held.started_at
            &&& made.record.updated_at == now
            &&& made.record.attempt == attempt
            &&& made.record.stalled == made.stalled
            &&& made.next is Done ==> made.record.status is Satisfied
            &&& made.next is Retry ==> made.record.status is Running
            &&& made.next matches NextView::StandDown(reason) ==> made.record.status
                == StatusView::StoodDown(reason)
            &&& approach matches ApproachView::Selected { workflow_id, .. } ==> made.scored == Some(
                workflow_id,
            )
            &&& approach matches ApproachView::Variant { parent_id, .. } ==> made.scored == Some(
                parent_id,
            )
            &&& approach is Authored ==> made.scored is None
        }),
{
}

/// A new episode begins with no attempt made, and one under way goes on from its
/// record.
pub proof fn episodes_begin_once(
    held: Option<EpisodeView>,
    episode: Seq<char>,
    goal: GoalView,
    now: Seq<char>,
)
    ensures
        held matches Some(record) ==> continued(held, episode, goal, now) == record,
        held is None ==> continued(held, episode, goal, now) == fresh_record(episode, goal, now),
        ({
            let begun = fresh_record(episode, goal, now);
            &&& begun.id == episode
            &&& begun.goal == goal
            &&& begun.status is Running
            &&& begun.attempt == 0
            &&& begun.stalled == 0
            &&& begun.started_at == now
            &&& begun.updated_at == now
        }),
{
}

/// Approaches of different kinds never look alike, and those of one kind do
/// exactly where they ran the same thing.
pub proof fn signatures_tell_approaches_apart(a: ApproachView, b: ApproachView)
    ensures
        a.signature() == b.signature() <==> match (a, b) {
            (
                ApproachView::Selected { workflow_id: x, .. },
                ApproachView::Selected { workflow_id: y, .. },
            ) => x == y,
            (
                ApproachView::Authored { fingerprint: x, .. },
                ApproachView::Authored { fingerprint: y, .. },
            ) => x == y,
            (
                ApproachView::Variant { parent_id: x, .. },
                ApproachView::Variant { parent_id: y, .. },
            ) => x == y,
            _ => false,
        },
{
    reveal_strlit("selected:");
    reveal_strlit("authored:");
    reveal_strlit("variant:");
    assert("selected:"@.len() == 9 && "authored:"@.len() == 9 && "variant:"@.len() == 8);
    assert(a.signature()[0] == (match a {
        ApproachView::Selected { .. } => 's',
        ApproachView::Authored { .. } => 'a',
        ApproachView::Variant { .. } => 'v',
    }));
    assert(b.signature()[0] == (match b {
        ApproachView::Selected { .. } => 's',
        ApproachView::Authored { .. } => 'a',
        ApproachView::Variant { .. } => 'v',
    }));
    match (a, b) {
        (
            ApproachView::Selected { workflow_id: x, .. },
            ApproachView::Selected { workflow_id: y, .. },
        ) => {
            assert(a.signature().skip(9) =~= x);
            assert(b.signature().skip(9) =~= y);
        },
        (
            ApproachView::Authored { fingerprint: x, .. },
            ApproachView::Authored { fingerprint: y, .. },
        ) => {
            assert(a.signature().skip(9) =~= x);
            assert(b.signature().skip(9) =~= y);
        },
        (
            ApproachView::Variant { parent_id: x, .. },
            ApproachView::Variant { parent_id: y, .. },
        ) => {
            assert(a.signature().skip(8) =~= x);
            assert(b.signature().skip(8) =~= y);
        },
        _ => {},
    }
}

/// A graph is kept exactly where it was written for the goal and met it; and a
/// stored one is repaired exactly where it fell short and is to blame.
pub proof fn graphs_are_kept_or_repaired_on_evidence(
    satisfied: bool,
    approach: ApproachView,
    suspect: bool,
)
    ensures
        follow_up_of(satisfied, approach, suspect) is Keep <==> approach is Authored && satisfied,
        follow_up_of(satisfied, approach, suspect) is Repair <==> !(approach is Authored)
            && !satisfied && suspect,
        follow_up_of(satisfied, approach, suspect) matches FollowUpView::Repair(id) ==> match approach {
            ApproachView::Selected { workflow_id, .. } => id == workflow_id,
            ApproachView::Variant { parent_id, .. } => id == parent_id,
            _ => false,
        },
{
}

/// Help rates are compared as fractions: what helped of what was tried.
pub proof fn rates_are_fractions(applied: u32, helped: u32, other_applied: u32, other_helped: u32)
    ensures
        applied > 0 && other_applied > 0 ==> (rate_below(
            applied,
            helped,
            other_applied,
            other_helped,
        ) <==> helped * other_applied < other_helped * applied),
        applied == 0 && other_applied > 0 ==> (rate_below(
            applied,
            helped,
            other_applied,
            other_helped,
        ) <==> other_helped > 0),
        other_applied == 0 ==> !rate_below(applied, helped, other_applied, other_helped),
{
    if applied == 0 && other_applied > 0 {
        assert(0 * other_applied as nat == 0) by (nonlinear_arith);
        assert(other_helped as nat * 1 == other_helped as nat);
    }
}

/// The champion of a family is a member with at least three runs and the best
/// share of help, over the most runs where several have it; and the root where
/// no member has three runs.
pub proof fn champions_have_the_best_record(family: Seq<(Seq<char>, Score)>, c: int, i: int)
    requires
        is_champion(family, c),
        0 <= i < family.len(),
    ensures
        0 <= c < family.len(),
        family[i].1.applied >= 3 ==> {
            &&& family[c].1.applied >= 3
            &&& family[i].1.helped * family[c].1.applied <= family[c].1.helped * family[i].1.applied
            &&& family[i].1.helped * family[c].1.applied == family[c].1.helped
                * family[i].1.applied ==> family[i].1.applied <= family[c].1.applied
        },
        (forall|k: int| 0 <= k < family.len() ==> (#[trigger] family[k]).1.applied < 3) ==> c == 0,
{
    let a = family[i].1;
    let b = family[c].1;
    if a.applied >= 3 {
        assert(proven(family[i]));
        rates_are_fractions(b.applied, b.helped, a.applied, a.helped);
        rates_are_fractions(a.applied, a.helped, b.applied, b.helped);
    }
    if forall|k: int| 0 <= k < family.len() ==> (#[trigger] family[k]).1.applied < 3 {
        assert forall|k: int| 0 <= k < family.len() implies !proven(
            #[trigger] family[k],
        ) by {}
    }
}

/// A member with fewer than three runs is unproven, whatever they came to; and of
/// the others the one to offer is the champion, and the rest are beaten.
pub proof fn members_stand_by_their_record(family: Seq<(Seq<char>, Score)>, i: int, c: int)
    requires
        0 <= i < family.len(),
        forall|k: int| 0 <= k < i ==> (#[trigger] family[k]).0 != family[i].0,
        is_champion(family, c),
    ensures
        family[i].1.applied < 3 ==> standing_of(family[i].0, family) == Standing::Unproven,
        family[i].1.applied >= 3 && family[c].0 == family[i].0 ==> standing_of(
            family[i].0,
            family,
        ) == Standing::Champion,
        family[i].1.applied >= 3 && family[c].0 != family[i].0 ==> standing_of(
            family[i].0,
            family,
        ) == Standing::Beaten,
{
    let id = family[i].0;
    assert(is_first_member(family, id, i));
    assert forall|k: int|
        is_first_member(family, id, k) implies k == i by {
        if k < i {
            assert(family[k].0 != id);
        }
        if i < k {
            assert(family[i].0 != id);
        }
    }
    assert forall|d: int| #[trigger] is_champion(family, d) implies d == c by {
        champions_are_unique(family, c, d);
    }
    if family[i].1.applied >= 3 {
        assert(is_first_member(family, id, i)
            && proven(family[i]));
    }
}

/// A lesson is read by the tenant whose it is, and by everyone where it is
/// nobody's; and of a kind that is asked for, only those of that kind.
pub proof fn lessons_are_read_by_whom_they_belong_to(
    lessons: Seq<LessonView>,
    more: LessonView,
    bucket: Seq<char>,
    kind: Option<LessonKind>,
)
    ensures
        ({
            let before = lessons_for(lessons, bucket, kind, lessons.len());
            let after = lessons_for(lessons.push(more), bucket, kind, lessons.len() + 1);
            let readable = more.scope_key is None || (bucket.len() > 0 && more.scope_key == Some(
                bucket,
            ));
            let asked = kind is None || kind == Some(more.kind);
            &&& readable && asked ==> after == before.push(more)
            &&& !(readable && asked) ==> after == before
            &&& lessons_for(lessons, bucket, kind, 0).len() == 0
        }),
{
    lemma_lessons_front(lessons, more, bucket, kind, lessons.len());
}

proof fn lemma_lessons_front(
    lessons: Seq<LessonView>,
    more: LessonView,
    bucket: Seq<char>,
    kind: Option<LessonKind>,
    n: nat,
)
    requires
        n <= lessons.len(),
    ensures
        lessons_for(lessons.push(more), bucket, kind, n) == lessons_for(lessons, bucket, kind, n),
    decreases n,
{
    if n > 0 {
        lemma_lessons_front(lessons, more, bucket, kind, (n - 1) as nat);
        assert(lessons.push(more)[n - 1] == lessons[n - 1]);
    }
}

/// A bucket lists its own episodes, in the order in which they began, and only
/// those under way where that is asked.
pub proof fn buckets_list_their_own_episodes(
    episodes: Seq<EpisodeView>,
    more: EpisodeView,
    bucket: Seq<char>,
    running: bool,
)
    ensures
        ({
            let before = episodes_for(episodes, bucket, running, episodes.len());
            let after = episodes_for(episodes.push(more), bucket, running, episodes.len() + 1);
            let own = if bucket.len() > 0 {
                more.scope_key == Some(bucket)
            } else {
                more.scope_key is None
            };
            let asked = !running || more.status is Running;
            &&& own && asked ==> after == before.push(more)
            &&& !(own && asked) ==> after == before
            &&& episodes_for(episodes, bucket, running, 0).len() == 0
        }),
{
    lemma_episodes_front(episodes, more, bucket, running, episodes.len());
}

proof fn lemma_episodes_front(
    episodes: Seq<EpisodeView>,
    more: EpisodeView,
    bucket: Seq<char>,
    running: bool,
    n: nat,
)
    requires
        n <= episodes.len(),
    ensures
        episodes_for(episodes.push(more), bucket, running, n) == episodes_for(
            episodes,
            bucket,
            running,
            n,
        ),
    decreases n,
{
    if n > 0 {
        lemma_episodes_front(episodes, more, bucket, running, (n - 1) as nat);
        assert(episodes.push(more)[n - 1] == episodes[n - 1]);
    }
}

/// Scoring a lesson counts that lesson, as helped where it helped, and changes
/// nothing else of it and nothing of any other.
pub proof fn scoring_counts_the_lesson(
    lessons: Seq<LessonView>,
    id: Seq<char>,
    helped: bool,
    i: int,
)
    requires
        0 <= i < lessons.len(),
        lessons[i].applied < u32::MAX,
        lessons[i].helped < u32::MAX,
    ensures
        scored_lessons(lessons, id, helped).len() == lessons.len(),
        lessons[i].id != id ==> scored_lessons(lessons, id, helped)[i] == lessons[i],
        lessons[i].id == id ==> {
            let after = scored_lessons(lessons, id, helped)[i];
            &&& after.applied == lessons[i].applied + 1
            &&& helped ==> after.helped == lessons[i].helped + 1
            &&& !helped ==> after.helped == lessons[i].helped
            &&& after.id == lessons[i].id && after.kind == lessons[i].kind && after.trigger
                == lessons[i].trigger && after.mechanism == lessons[i].mechanism && after.claim
                == lessons[i].claim && after.scope_key == lessons[i].scope_key
        },
{
}

/// The rows of an episode are its own, and of none before any was written.
pub proof fn rows_stay_with_their_episode(rows: Seq<RowView>, episode: Seq<char>, n: nat, i: int)
    requires
        n <= rows.len(),
    ensures
        0 <= i < rows_of(rows, episode, n).len() ==> rows_of(rows, episode, n)[i].episode
            == episode,
        rows_of(rows, episode, 0).len() == 0,
    decreases n,
{
    if n > 0 {
        rows_stay_with_their_episode(rows, episode, (n - 1) as nat, i);
    }
}

/// What a run of decimal digits stands for.
pub open spec fn number_of(digits: Seq<char>) -> nat
    decreases digits.len(),
{
    if digits.len() == 0 {
        0
    } else {
        (number_of(digits.drop_last()) * 10 + (digits.last() as int - '0' as int)) as nat
    }
}

/// A number written in decimal digits reads back.
pub proof fn decimals_read_back(n: nat)
    ensures
        number_of(decimal(n)) == n,
        forall|i: int| 0 <= i < decimal(n).len() ==> '0' <= #[trigger] decimal(n)[i] <= '9',
        decimal(n).len() > 0,
    decreases n,
{
    if n >= 10 {
        decimals_read_back(n / 10);
        assert(decimal(n).drop_last() =~= decimal(n / 10));
    } else {
        assert(decimal(n).drop_last() =~= Seq::empty());
        reveal_with_fuel(number_of, 2);
    }
}

proof fn lemma_zeros(digits: Seq<char>)
    ensures
        number_of(seq!['0'] + digits) == number_of(digits),
    decreases digits.len(),
{
    let longer = seq!['0'] + digits;
    if digits.len() == 0 {
        assert(longer.drop_last() =~= Seq::empty());
        reveal_with_fuel(number_of, 2);
    } else {
        lemma_zeros(digits.drop_last());
        assert(longer.drop_last() =~= seq!['0'] + digits.drop_last());
    }
}

proof fn lemma_padded(digits: Seq<char>, width: nat)
    ensures
        number_of(zero_padded(digits, width)) == number_of(digits),
    decreases width - digits.len(),
{
    if digits.len() < width {
        lemma_zeros(digits);
        lemma_padded(seq!['0'] + digits, width);
    }
}

/// No two records of a kind share an id.
pub proof fn record_ids_are_their_own(prefix: Seq<char>, a: nat, b: nat)
    ensures
        record_id(prefix, a) == record_id(prefix, b) ==> a == b,
        prefix.is_prefix_of(record_id(prefix, a)),
{
    decimals_read_back(a);
    decimals_read_back(b);
    lemma_padded(decimal(a), 8);
    lemma_padded(decimal(b), 8);
    let front = prefix + "_"@;
    assert(record_id(prefix, a).skip(front.len() as int) =~= zero_padded(decimal(a), 8));
    assert(record_id(prefix, b).skip(front.len() as int) =~= zero_padded(decimal(b), 8));
    assert(record_id(prefix, a).subrange(0, prefix.len() as int) =~= prefix);
}

/// Another attempt is worth making where the goal is not met, something other than
/// a person could still help, and neither attempts nor patience are spent; each of
/// these alone rules it out.
pub proof fn retries_need_every_reason(
    verdict: VerdictView,
    attempt: u32,
    stalled: u32,
    budget: Budget,
)
    ensures
        verdict.satisfied ==> !verdict.worth_retrying(attempt, stalled, budget),
        verdict.blocker == Blocker::NeedsInput ==> !verdict.worth_retrying(
            attempt,
            stalled,
            budget,
        ),
        attempt >= budget.max_attempts ==> !verdict.worth_retrying(attempt, stalled, budget),
        stalled >= budget.max_stalled ==> !verdict.worth_retrying(attempt, stalled, budget),
        !verdict.satisfied && verdict.blocker != Blocker::NeedsInput && attempt
            < budget.max_attempts && stalled < budget.max_stalled ==> verdict.worth_retrying(
            attempt,
            stalled,
            budget,
        ),
{
}

} // verus!
