//! What holds of everything a ledger keeps: how it is counted, read back, and
//! traced to where it came from.
use vstd::prelude::*;

use crate::adaptive::closing::stand_down_reason;
use crate::adaptive::contracts::{Blocker, Budget, VerdictView};
use crate::adaptive::ledger::{
    lesson_kind_of, lesson_kind_text, LedgerErrorView, LessonKind, RowView, Score,
};
use crate::adaptive::ledger::memory::{
    cited_rows, cites, score_in, with_citations, CitationView, LedgerView, ScoreEntryView,
};
use crate::adaptive::ledger::stored::{bucket_of, either_width, fitting, number_after};
use crate::text::{decimal, is_white, lowered_ascii};
use crate::text_laws::{all_white, trimming_takes_the_blank_ends};

verus! {

/// A stored count is read as it is where it fits, and as nothing where it does not.
pub proof fn stored_counts_are_read_where_they_fit(n: i64, narrow: Option<i32>, m: i32)
    ensures
        0 <= n <= u32::MAX ==> fitting(n) == n && either_width(Some(n), narrow) == n,
        n < 0 || n > u32::MAX ==> fitting(n) == 0,
        0 <= m ==> either_width(None, Some(m)) == m,
        m < 0 ==> either_width(None, Some(m)) == 0,
        either_width(None, None) == 0,
        (n < 0 || n > u32::MAX) && 0 <= m ==> either_width(Some(n), Some(m)) == m,
        number_after(Some(n)) == n + 1,
        number_after(None) == 1,
{
}

/// Each tenant has a bucket of its own, and nobody's is the one without a name.
pub proof fn tenants_have_their_own_buckets(a: Seq<char>, b: Seq<char>)
    ensures
        bucket_of(Some(a)) == bucket_of(Some(b)) <==> a == b,
        bucket_of(None).len() == 0,
{
    reveal_strlit("");
}

/// A kind is read whatever space stands around its name and in whatever case it is
/// written; and what names no kind is a strategy.
pub proof fn kinds_are_read_in_any_case(
    front: Seq<char>,
    name: Seq<char>,
    back: Seq<char>,
    kind: LessonKind,
)
    requires
        all_white(front),
        all_white(back),
        name.len() > 0 ==> !is_white(name[0]) && !is_white(name.last()),
    ensures
        lowered_ascii(name) == lesson_kind_text(kind) ==> lesson_kind_of(front + name + back)
            == kind,
        lowered_ascii(name) != "constraint"@ && lowered_ascii(name) != "failure_mode"@
            && lowered_ascii(name) != "calibration"@ ==> lesson_kind_of(front + name + back)
            == LessonKind::Strategy,
{
    trimming_takes_the_blank_ends(front, name, back);
    lemma_kinds();
}

proof fn lemma_kinds()
    ensures
        "strategy"@ != "constraint"@,
        "strategy"@ != "failure_mode"@,
        "strategy"@ != "calibration"@,
        "constraint"@ != "failure_mode"@,
        "constraint"@ != "calibration"@,
        "failure_mode"@ != "calibration"@,
{
    reveal_strlit("strategy");
    reveal_strlit("constraint");
    reveal_strlit("failure_mode");
    reveal_strlit("calibration");
    assert("strategy"@.len() == 8 && "constraint"@.len() == 10 && "failure_mode"@.len() == 12 && "calibration"@.len() == 11);
}

proof fn lemma_cited_front(l: LedgerView, more: RowView, lesson: Seq<char>, n: nat)
    requires
        n <= l.rows.len(),
    ensures
        cited_rows(LedgerView { rows: l.rows.push(more), ..l }, lesson, n) == cited_rows(
            l,
            lesson,
            n,
        ),
    decreases n,
{
    if n > 0 {
        lemma_cited_front(l, more, lesson, (n - 1) as nat);
        assert(l.rows.push(more)[n - 1] == l.rows[n - 1]);
    }
}

/// The evidence of a lesson is the rows it cites, in the order of the ledger, and
/// no others.
pub proof fn lessons_are_traced_to_the_rows_they_cite(
    l: LedgerView,
    more: RowView,
    lesson: Seq<char>,
)
    ensures
        ({
            let grown = LedgerView { rows: l.rows.push(more), ..l };
            let before = cited_rows(l, lesson, l.rows.len());
            let after = cited_rows(grown, lesson, l.rows.len() + 1);
            let cited = l.citations.contains(CitationView { lesson_id: lesson, row_id: more.id });
            &&& cited ==> after == before.push(more)
            &&& !cited ==> after == before
            &&& cited_rows(l, lesson, 0).len() == 0
        }),
{
    lemma_cited_front(l, more, lesson, l.rows.len());
    assert(l.rows.push(more)[l.rows.len() as int] == more);
}

/// A lesson cites every row it is drawn from; citations that were there stay, and
/// none is made up.
pub proof fn lessons_cite_what_they_are_drawn_from(
    citations: Seq<CitationView>,
    lesson: Seq<char>,
    rows: Seq<Seq<char>>,
    n: nat,
    i: int,
    c: CitationView,
)
    requires
        n <= rows.len(),
    ensures
        0 <= i < n ==> cites(with_citations(citations, lesson, rows, n), lesson, rows[i]),
        citations.contains(c) ==> with_citations(citations, lesson, rows, n).contains(c),
        with_citations(citations, lesson, rows, n).contains(c) ==> citations.contains(c) || (
        c.lesson_id == lesson && rows.contains(c.row_id)),
    decreases n,
{
    if n > 0 {
        let m = (n - 1) as nat;
        lessons_cite_what_they_are_drawn_from(citations, lesson, rows, m, i, c);
        let before = with_citations(citations, lesson, rows, m);
        let after = with_citations(citations, lesson, rows, n);
        let last = CitationView { lesson_id: lesson, row_id: rows[n - 1] };
        if !cites(before, lesson, rows[n - 1]) {
            assert(after == before.push(last));
            assert(after[before.len() as int] == last);
            if before.contains(c) {
                let k = choose|k: int| 0 <= k < before.len() && before[k] == c;
                assert(after[k] == c);
            }
            if 0 <= i < m {
                let want = CitationView { lesson_id: lesson, row_id: rows[i] };
                let k = choose|k: int| 0 <= k < before.len() && before[k] == want;
                assert(after[k] == want);
            }
            if after.contains(c) {
                let k = choose|k: int| 0 <= k < after.len() && after[k] == c;
                if k < before.len() {
                    assert(before[k] == c);
                } else {
                    assert(rows[n - 1] == c.row_id);
                }
            }
        }
    }
}

/// A workflow that never ran has no runs; one with a single entry has the score of
/// that entry, in that bucket alone.
pub proof fn scores_belong_to_a_workflow_in_a_bucket(
    bucket: Seq<char>,
    workflow: Seq<char>,
    score: Score,
    other: Seq<char>,
)
    ensures
        score_in(Seq::empty(), bucket, workflow).applied == 0,
        score_in(Seq::empty(), bucket, workflow).helped == 0,
        ({
            let one = seq![ScoreEntryView { bucket, workflow_id: workflow, score }];
            &&& score_in(one, bucket, workflow) == score
            &&& other != workflow ==> score_in(one, bucket, other).applied == 0
            &&& other != bucket ==> score_in(one, other, workflow).applied == 0
        }),
{
    let one = seq![ScoreEntryView { bucket, workflow_id: workflow, score }];
    assert(one.drop_first() =~= Seq::empty());
    reveal_with_fuel(score_in, 2);
}

/// A run counts once, and as helpful exactly where it helped.
pub proof fn runs_count_once(score: Score, helped: bool)
    requires
        score.applied < u32::MAX,
        score.helped < u32::MAX,
    ensures
        score.after_run(helped).applied == score.applied + 1,
        helped ==> score.after_run(helped).helped == score.helped + 1,
        !helped ==> score.after_run(helped).helped == score.helped,
{
}

/// An episode that is given up says why: how many attempts were made, or how many
/// of them in a row got nowhere.
pub proof fn given_up_episodes_say_why(
    verdict: VerdictView,
    attempt: u32,
    stalled: u32,
    budget: Budget,
)
    requires
        verdict.blocker != Blocker::NeedsInput,
    ensures
        attempt >= budget.max_attempts ==> decimal(attempt as nat).is_suffix_of(
            stand_down_reason(verdict, attempt, stalled, budget),
        ),
        attempt < budget.max_attempts ==> decimal(stalled as nat).is_prefix_of(
            stand_down_reason(verdict, attempt, stalled, budget),
        ),
{
    let text = stand_down_reason(verdict, attempt, stalled, budget);
    let made = decimal(attempt as nat);
    let idle = decimal(stalled as nat);
    if attempt >= budget.max_attempts {
        assert(text.subrange(text.len() - made.len(), text.len() as int) =~= made);
    } else {
        assert(text.subrange(0, idle.len() as int) =~= idle);
    }
}

/// An error of the ledger is told with what the backend said.
pub proof fn ledger_errors_are_told_in_words(text: Seq<char>)
    ensures
        text.is_suffix_of(LedgerErrorView::Backend(text).message()),
        text.is_suffix_of(LedgerErrorView::Corrupt(text).message()),
{
    let a = LedgerErrorView::Backend(text).message();
    let b = LedgerErrorView::Corrupt(text).message();
    assert(a.subrange(a.len() - text.len(), a.len() as int) =~= text);
    assert(b.subrange(b.len() - text.len(), b.len() as int) =~= text);
}

} // verus!
