//! A ledger held in memory.
//!
//! Every call names the bucket it acts for: a tenant, or the empty text for
//! what everyone shares. Attempts are kept by episode; lessons, scores and
//! episode records belong to the bucket that wrote them.
use vstd::prelude::*;

use crate::adaptive::ledger::{
    among, count_up, counted, new_id, no_score, record_id, signatures, signatures_of, Episode,
    EpisodeStatus, EpisodeView, LedgerRow, Lesson, LessonKind, LessonView, RowView, Score,
    StatusView,
};
use crate::text::{lemma_views_push, opt_view, same, unless_empty, views};

verus! {

broadcast use lemma_views_push;

/// The score of one workflow in one bucket.
pub struct ScoreEntry {
    bucket: String,
    workflow_id: String,
    score: Score,
}

#[verifier::ext_equal]
pub struct ScoreEntryView {
    pub bucket: Seq<char>,
    pub workflow_id: Seq<char>,
    pub score: Score,
}

impl View for ScoreEntry {
    type V = ScoreEntryView;

    closed spec fn view(&self) -> ScoreEntryView {
        ScoreEntryView {
            bucket: self.bucket@,
            workflow_id: self.workflow_id@,
            score: self.score,
        }
    }
}

/// That a lesson was drawn from a row.
pub struct Citation {
    lesson_id: String,
    row_id: String,
}

#[verifier::ext_equal]
pub struct CitationView {
    pub lesson_id: Seq<char>,
    pub row_id: Seq<char>,
}

impl View for Citation {
    type V = CitationView;

    closed spec fn view(&self) -> CitationView {
        CitationView { lesson_id: self.lesson_id@, row_id: self.row_id@ }
    }
}

/// A ledger held in memory.
pub struct MemoryLedger {
    rows: Vec<LedgerRow>,
    lessons: Vec<Lesson>,
    citations: Vec<Citation>,
    scores: Vec<ScoreEntry>,
    episodes: Vec<Episode>,
}

/// What a ledger holds, oldest first.
#[verifier::ext_equal]
pub struct LedgerView {
    pub rows: Seq<RowView>,
    pub lessons: Seq<LessonView>,
    pub citations: Seq<CitationView>,
    pub scores: Seq<ScoreEntryView>,
    pub episodes: Seq<EpisodeView>,
}

impl View for MemoryLedger {
    type V = LedgerView;

    closed spec fn view(&self) -> LedgerView {
        LedgerView {
            rows: views(self.rows@),
            lessons: views(self.lessons@),
            citations: views(self.citations@),
            scores: views(self.scores@),
            episodes: views(self.episodes@),
        }
    }
}

/// The rows of one episode among the first `n`, in order.
pub open spec fn rows_of(rows: Seq<RowView>, episode: Seq<char>, n: nat) -> Seq<RowView>
    decreases n,
{
    if n == 0 {
        Seq::empty()
    } else if rows[n - 1].episode == episode {
        rows_of(rows, episode, (n - 1) as nat).push(rows[n - 1])
    } else {
        rows_of(rows, episode, (n - 1) as nat)
    }
}

/// A bucket may read the lesson: it is its own, or everyone's.
pub open spec fn may_read(bucket: Seq<char>, lesson: LessonView) -> bool {
    lesson.scope_key is None || lesson.scope_key == unless_empty(bucket)
}

pub open spec fn wanted(kind: Option<LessonKind>, lesson: LessonView) -> bool {
    kind is None || kind == Some(lesson.kind)
}

/// The lessons among the first `n` that a bucket may read, of one kind where
/// one is given, in order.
pub open spec fn lessons_for(
    lessons: Seq<LessonView>,
    bucket: Seq<char>,
    kind: Option<LessonKind>,
    n: nat,
) -> Seq<LessonView>
    decreases n,
{
    if n == 0 {
        Seq::empty()
    } else if may_read(bucket, lessons[n - 1]) && wanted(kind, lessons[n - 1]) {
        lessons_for(lessons, bucket, kind, (n - 1) as nat).push(lessons[n - 1])
    } else {
        lessons_for(lessons, bucket, kind, (n - 1) as nat)
    }
}

/// The lesson `lesson_id` cites the row `row_id`.
pub open spec fn cites(
    citations: Seq<CitationView>,
    lesson_id: Seq<char>,
    row_id: Seq<char>,
) -> bool {
    citations.contains(CitationView { lesson_id, row_id })
}

/// The rows among the first `n` that a lesson cites, in order.
pub open spec fn cited_rows(l: LedgerView, lesson_id: Seq<char>, n: nat) -> Seq<RowView>
    decreases n,
{
    if n == 0 {
        Seq::empty()
    } else if cites(l.citations, lesson_id, l.rows[n - 1].id) {
        cited_rows(l, lesson_id, (n - 1) as nat).push(l.rows[n - 1])
    } else {
        cited_rows(l, lesson_id, (n - 1) as nat)
    }
}

/// The citations of a lesson added to those there, each once.
pub open spec fn with_citations(
    citations: Seq<CitationView>,
    lesson_id: Seq<char>,
    row_ids: Seq<Seq<char>>,
    n: nat,
) -> Seq<CitationView>
    decreases n,
{
    if n == 0 {
        citations
    } else {
        let before = with_citations(citations, lesson_id, row_ids, (n - 1) as nat);
        if cites(before, lesson_id, row_ids[n - 1]) {
            before
        } else {
            before.push(CitationView { lesson_id, row_id: row_ids[n - 1] })
        }
    }
}

/// The score of a workflow in a bucket; nothing was run where there is none.
pub open spec fn score_in(
    scores: Seq<ScoreEntryView>,
    bucket: Seq<char>,
    workflow_id: Seq<char>,
) -> Score
    decreases scores.len(),
{
    if scores.len() == 0 {
        no_score()
    } else if scores[0].bucket == bucket && scores[0].workflow_id == workflow_id {
        scores[0].score
    } else {
        score_in(scores.drop_first(), bucket, workflow_id)
    }
}

/// The record is that of an episode of this bucket.
pub open spec fn is_episode(record: EpisodeView, bucket: Seq<char>, id: Seq<char>) -> bool {
    record.id == id && record.scope_key == unless_empty(bucket)
}

/// `i` is the position of the record of an episode of this bucket.
pub open spec fn is_first_episode(
    episodes: Seq<EpisodeView>,
    bucket: Seq<char>,
    id: Seq<char>,
    i: int,
) -> bool {
    &&& 0 <= i < episodes.len()
    &&& is_episode(episodes[i], bucket, id)
    &&& forall|k: int| 0 <= k < i ==> !is_episode(#[trigger] episodes[k], bucket, id)
}

pub open spec fn has_episode(
    episodes: Seq<EpisodeView>,
    bucket: Seq<char>,
    id: Seq<char>,
) -> bool {
    exists|i: int| 0 <= i < episodes.len() && is_episode(#[trigger] episodes[i], bucket, id)
}

/// The record of an episode of this bucket.
pub open spec fn episode_in(
    episodes: Seq<EpisodeView>,
    bucket: Seq<char>,
    id: Seq<char>,
) -> Option<EpisodeView> {
    if has_episode(episodes, bucket, id) {
        Some(episodes[choose|i: int| is_first_episode(episodes, bucket, id, i)])
    } else {
        None
    }
}

/// The episodes with a record saved: it replaces the one it updates, or comes
/// last.
pub open spec fn with_episode(
    episodes: Seq<EpisodeView>,
    bucket: Seq<char>,
    record: EpisodeView,
) -> Seq<EpisodeView> {
    let stamped = EpisodeView { scope_key: unless_empty(bucket), ..record };
    if has_episode(episodes, bucket, record.id) {
        episodes.update(choose|i: int| is_first_episode(episodes, bucket, record.id, i), stamped)
    } else {
        episodes.push(stamped)
    }
}

/// The episodes of a bucket among the first `n`, in order; only those still
/// running where that is asked.
pub open spec fn episodes_for(
    episodes: Seq<EpisodeView>,
    bucket: Seq<char>,
    running: bool,
    n: nat,
) -> Seq<EpisodeView>
    decreases n,
{
    if n == 0 {
        Seq::empty()
    } else {
        let rest = episodes_for(episodes, bucket, running, (n - 1) as nat);
        let record = episodes[n - 1];
        if record.scope_key == unless_empty(bucket) && (running ==> record.status
            == StatusView::Running) {
            rest.push(record)
        } else {
            rest
        }
    }
}

/// The ledger with a lesson promoted by a bucket, whatever the lesson says of
/// whose it is.
pub open spec fn with_lesson(
    l: LedgerView,
    bucket: Seq<char>,
    lesson: LessonView,
    row_ids: Seq<Seq<char>>,
) -> LedgerView {
    let id = record_id("les"@, l.lessons.len() + 1);
    LedgerView {
        lessons: l.lessons.push(LessonView { id, scope_key: unless_empty(bucket), ..lesson }),
        citations: with_citations(l.citations, id, row_ids, row_ids.len()),
        ..l
    }
}

/// The lessons with the counters of those called `id` moved.
pub open spec fn scored_lessons(
    lessons: Seq<LessonView>,
    id: Seq<char>,
    helped: bool,
) -> Seq<LessonView> {
    Seq::new(
        lessons.len(),
        |i: int|
            if lessons[i].id == id {
                LessonView {
                    applied: counted(lessons[i].applied),
                    helped: if helped {
                        counted(lessons[i].helped)
                    } else {
                        lessons[i].helped
                    },
                    ..lessons[i]
                }
            } else {
                lessons[i]
            },
    )
}

fn bucket_scope(bucket: &str) -> (r: Option<String>)
    ensures
        opt_view(r) == unless_empty(bucket@),
{
    if bucket.is_empty() {
        None
    } else {
        Some(bucket.to_owned())
    }
}

fn same_scope(scope: &Option<String>, bucket: &str) -> (r: bool)
    ensures
        r == (opt_view(*scope) == unless_empty(bucket@)),
{
    match scope {
        Some(name) => !bucket.is_empty() && same(name.as_str(), bucket),
        None => bucket.is_empty(),
    }
}

proof fn lemma_score_skip(
    scores: Seq<ScoreEntryView>,
    bucket: Seq<char>,
    workflow_id: Seq<char>,
    n: int,
)
    requires
        0 <= n <= scores.len(),
        forall|k: int|
            0 <= k < n ==> !((#[trigger] scores[k]).bucket == bucket && scores[k].workflow_id
                == workflow_id),
    ensures
        score_in(scores, bucket, workflow_id) == score_in(scores.skip(n), bucket, workflow_id),
    decreases n,
{
    if n == 0 {
        assert(scores.skip(0) =~= scores);
    } else {
        lemma_score_skip(scores.drop_first(), bucket, workflow_id, n - 1);
        assert(scores.drop_first().skip(n - 1) =~= scores.skip(n));
    }
}

proof fn lemma_score_update(
    scores: Seq<ScoreEntryView>,
    i: int,
    score: Score,
    bucket: Seq<char>,
    workflow_id: Seq<char>,
)
    requires
        0 <= i < scores.len(),
        forall|k: int|
            0 <= k < i ==> !((#[trigger] scores[k]).bucket == scores[i].bucket
                && scores[k].workflow_id == scores[i].workflow_id),
    ensures
        score_in(
            scores.update(i, ScoreEntryView { score, ..scores[i] }),
            bucket,
            workflow_id,
        ) == (if scores[i].bucket == bucket && scores[i].workflow_id == workflow_id {
            score
        } else {
            score_in(scores, bucket, workflow_id)
        }),
    decreases scores.len(),
{
    let next = scores.update(i, ScoreEntryView { score, ..scores[i] });
    if i == 0 {
        assert(next.drop_first() =~= scores.drop_first());
    } else {
        let rest = scores.drop_first();
        assert(next.drop_first() =~= rest.update(
            i - 1,
            ScoreEntryView { score, ..rest[i - 1] },
        ));
        assert forall|k: int| 0 <= k < i - 1 implies !((#[trigger] rest[k]).bucket
            == rest[i - 1].bucket && rest[k].workflow_id == rest[i - 1].workflow_id) by {
            assert(rest[k] == scores[k + 1]);
        }
        lemma_score_update(rest, i - 1, score, bucket, workflow_id);
    }
}

proof fn lemma_score_push(
    scores: Seq<ScoreEntryView>,
    entry: ScoreEntryView,
    bucket: Seq<char>,
    workflow_id: Seq<char>,
)
    requires
        forall|k: int|
            0 <= k < scores.len() ==> !((#[trigger] scores[k]).bucket == entry.bucket
                && scores[k].workflow_id == entry.workflow_id),
    ensures
        score_in(scores.push(entry), bucket, workflow_id) == (if entry.bucket == bucket
            && entry.workflow_id == workflow_id {
            entry.score
        } else {
            score_in(scores, bucket, workflow_id)
        }),
    decreases scores.len(),
{
    if scores.len() == 0 {
        reveal_with_fuel(score_in, 2);
        assert(scores.push(entry).drop_first() =~= Seq::empty());
    } else {
        let rest = scores.drop_first();
        assert(scores.push(entry).drop_first() =~= rest.push(entry));
        assert forall|k: int| 0 <= k < rest.len() implies !((#[trigger] rest[k]).bucket
            == entry.bucket && rest[k].workflow_id == entry.workflow_id) by {
            assert(rest[k] == scores[k + 1]);
        }
        lemma_score_push(rest, entry, bucket, workflow_id);
    }
}

impl MemoryLedger {
    /// An empty ledger.
    pub fn new() -> (r: Self)
        ensures
            r@ == (LedgerView {
                rows: Seq::empty(),
                lessons: Seq::empty(),
                citations: Seq::empty(),
                scores: Seq::empty(),
                episodes: Seq::empty(),
            }),
    {
        let r = MemoryLedger {
            rows: Vec::new(),
            lessons: Vec::new(),
            citations: Vec::new(),
            scores: Vec::new(),
            episodes: Vec::new(),
        };
        proof {
            assert(r@.rows =~= Seq::empty());
            assert(r@.lessons =~= Seq::empty());
            assert(r@.citations =~= Seq::empty());
            assert(r@.scores =~= Seq::empty());
            assert(r@.episodes =~= Seq::empty());
        }
        r
    }

    /// Records one finished attempt and assigns its id.
    pub fn append(&mut self, row: &LedgerRow) -> (id: String)
        ensures
            id@ == record_id("ldg"@, old(self)@.rows.len() + 1),
            final(self)@ == (LedgerView {
                rows: old(self)@.rows.push(RowView { id: id@, ..row@ }),
                ..old(self)@
            }),
    {
        let mut stored = row.clone();
        let ghost before = self@;
        self.rows.push(stored);
        let n: usize = self.rows.len();
        let id = new_id("ldg", n as u64);
        self.rows[n - 1].id = id.clone();
        proof {
            assert(self@.rows =~= before.rows.push(RowView { id: id@, ..row@ }));
            assert(self@ =~= (LedgerView {
                rows: before.rows.push(RowView { id: id@, ..row@ }),
                ..before
            }));
        }
        id
    }

    /// Every attempt of one episode, oldest first.
    pub fn rows(&self, episode: &str) -> (r: Vec<LedgerRow>)
        ensures
            views(r@) == rows_of(self@.rows, episode@, self@.rows.len()),
    {
        let mut found: Vec<LedgerRow> = Vec::new();
        let mut i: usize = 0;
        assert(views(found@) =~= rows_of(self@.rows, episode@, 0));
        while i < self.rows.len()
            invariant
                i <= self.rows@.len(),
                views(found@) == rows_of(self@.rows, episode@, i as nat),
            decreases self.rows@.len() - i,
        {
            assert(self@.rows[i as int] == self.rows@[i as int]@);
            if same(self.rows[i].episode.as_str(), episode) {
                found.push(self.rows[i].clone());
            }
            i = i + 1;
        }
        found
    }

    /// The approach signatures already spent on an episode.
    pub fn tried(&self, episode: &str) -> (r: Vec<String>)
        ensures
            ({
                let rows = rows_of(self@.rows, episode@, self@.rows.len());
                views(r@) == signatures_of(rows, rows.len())
            }),
    {
        let rows = self.rows(episode);
        assert(views(rows@).len() == rows@.len());
        signatures(&rows)
    }

    /// Keeps a lesson for a bucket, citing the rows it was drawn from.
    pub fn promote(&mut self, bucket: &str, lesson: &Lesson, row_ids: &Vec<String>) -> (id: String)
        ensures
            id@ == record_id("les"@, old(self)@.lessons.len() + 1),
            final(self)@ == with_lesson(old(self)@, bucket@, lesson@, views(row_ids@)),
    {
        let ghost before = self@;
        let mut stored = lesson.clone();
        stored.scope_key = bucket_scope(bucket);
        self.lessons.push(stored);
        let n: usize = self.lessons.len();
        let id = new_id("les", n as u64);
        self.lessons[n - 1].id = id.clone();
        let ghost kept = before.lessons.push(
            LessonView { id: id@, scope_key: unless_empty(bucket@), ..lesson@ },
        );
        assert(self@.lessons =~= kept);
        let ghost wanted = views(row_ids@);
        let mut i: usize = 0;
        while i < row_ids.len()
            invariant
                i <= row_ids@.len(),
                wanted == views(row_ids@),
                self@.citations == with_citations(before.citations, id@, wanted, i as nat),
                self@.lessons == kept,
                self@.rows == before.rows,
                self@.scores == before.scores,
                self@.episodes == before.episodes,
            decreases row_ids@.len() - i,
        {
            assert(wanted[i as int] == row_ids@[i as int]@);
            let ghost known = self@.citations;
            if !self.is_cited(id.as_str(), row_ids[i].as_str()) {
                self.citations.push(
                    Citation { lesson_id: id.clone(), row_id: row_ids[i].clone() },
                );
                assert(self@.citations =~= known.push(
                    CitationView { lesson_id: id@, row_id: wanted[i as int] },
                ));
            }
            i = i + 1;
        }
        assert(self@ =~= with_lesson(before, bucket@, lesson@, wanted));
        id
    }

    fn is_cited(&self, lesson_id: &str, row_id: &str) -> (r: bool)
        ensures
            r == cites(self@.citations, lesson_id@, row_id@),
    {
        let mut i: usize = 0;
        let ghost sought = CitationView { lesson_id: lesson_id@, row_id: row_id@ };
        while i < self.citations.len()
            invariant
                i <= self.citations@.len(),
                sought == (CitationView { lesson_id: lesson_id@, row_id: row_id@ }),
                forall|k: int| 0 <= k < i ==> self@.citations[k] != sought,
            decreases self.citations@.len() - i,
        {
            assert(self@.citations[i as int] == self.citations@[i as int]@);
            if same(self.citations[i].lesson_id.as_str(), lesson_id) && same(
                self.citations[i].row_id.as_str(),
                row_id,
            ) {
                assert(self@.citations[i as int] =~= sought);
                return true;
            }
            i = i + 1;
        }
        false
    }

    /// The lessons a bucket may read, optionally of one kind, oldest first.
    pub fn lessons(&self, bucket: &str, kind: Option<LessonKind>) -> (r: Vec<Lesson>)
        ensures
            views(r@) == lessons_for(self@.lessons, bucket@, kind, self@.lessons.len()),
    {
        let mut found: Vec<Lesson> = Vec::new();
        let mut i: usize = 0;
        assert(views(found@) =~= lessons_for(self@.lessons, bucket@, kind, 0));
        while i < self.lessons.len()
            invariant
                i <= self.lessons@.len(),
                views(found@) == lessons_for(self@.lessons, bucket@, kind, i as nat),
            decreases self.lessons@.len() - i,
        {
            let lesson = &self.lessons[i];
            assert(self@.lessons[i as int] == lesson@);
            let readable = lesson.scope_key.is_none() || same_scope(&lesson.scope_key, bucket);
            let sought = match kind {
                Some(want) => lesson.kind == want,
                None => true,
            };
            if readable && sought {
                found.push(lesson.clone());
            }
            i = i + 1;
        }
        found
    }

    /// The rows a lesson cites, oldest first.
    pub fn evidence(&self, lesson_id: &str) -> (r: Vec<LedgerRow>)
        ensures
            views(r@) == cited_rows(self@, lesson_id@, self@.rows.len()),
    {
        let mut found: Vec<LedgerRow> = Vec::new();
        let mut i: usize = 0;
        assert(views(found@) =~= cited_rows(self@, lesson_id@, 0));
        while i < self.rows.len()
            invariant
                i <= self.rows@.len(),
                views(found@) == cited_rows(self@, lesson_id@, i as nat),
            decreases self.rows@.len() - i,
        {
            assert(self@.rows[i as int] == self.rows@[i as int]@);
            if self.is_cited(lesson_id, self.rows[i].id.as_str()) {
                found.push(self.rows[i].clone());
            }
            i = i + 1;
        }
        found
    }

    /// Notes that a lesson was shown to a planner, and whether that run ended
    /// satisfied.
    pub fn score_lesson(&mut self, lesson_id: &str, helped: bool)
        ensures
            final(self)@ == (LedgerView {
                lessons: scored_lessons(old(self)@.lessons, lesson_id@, helped),
                ..old(self)@
            }),
    {
        let ghost before = self@;
        let ghost target = scored_lessons(before.lessons, lesson_id@, helped);
        let mut i: usize = 0;
        while i < self.lessons.len()
            invariant
                i <= self.lessons@.len(),
                self@.lessons.len() == before.lessons.len(),
                target == scored_lessons(before.lessons, lesson_id@, helped),
                forall|k: int| 0 <= k < i ==> self@.lessons[k] == target[k],
                forall|k: int|
                    i <= k < before.lessons.len() ==> self@.lessons[k] == before.lessons[k],
                self@.rows == before.rows,
                self@.citations == before.citations,
                self@.scores == before.scores,
                self@.episodes == before.episodes,
            decreases self.lessons@.len() - i,
        {
            let ghost held = self@.lessons;
            assert(held[i as int] == self.lessons@[i as int]@);
            if same(self.lessons[i].id.as_str(), lesson_id) {
                let mut lesson = self.lessons[i].clone();
                lesson.applied = count_up(lesson.applied);
                if helped {
                    lesson.helped = count_up(lesson.helped);
                }
                self.lessons.set(i, lesson);
                assert(self@.lessons =~= held.update(i as int, lesson@));
            }
            i = i + 1;
        }
        assert(self@.lessons =~= target);
        assert(self@ =~= (LedgerView { lessons: target, ..before }));
    }

    /// Notes that a workflow was run for a bucket, and whether it ended
    /// satisfied.
    pub fn score_workflow(&mut self, bucket: &str, workflow_id: &str, helped: bool)
        ensures
            final(self)@ == (LedgerView { scores: final(self)@.scores, ..old(self)@ }),
            forall|b: Seq<char>, w: Seq<char>| #[trigger]
                score_in(final(self)@.scores, b, w) == (if b == bucket@ && w == workflow_id@ {
                    score_in(old(self)@.scores, b, w).after_run(helped)
                } else {
                    score_in(old(self)@.scores, b, w)
                }),
    {
        let ghost before = self@;
        let mut i: usize = 0;
        while i < self.scores.len()
            invariant
                i <= self.scores@.len(),
                self@ == before,
                before == old(self)@,
                forall|k: int|
                    0 <= k < i ==> !((#[trigger] before.scores[k]).bucket == bucket@
                        && before.scores[k].workflow_id == workflow_id@),
            decreases self.scores@.len() - i,
        {
            assert(before.scores[i as int] == self.scores@[i as int]@);
            if same(self.scores[i].bucket.as_str(), bucket) && same(
                self.scores[i].workflow_id.as_str(),
                workflow_id,
            ) {
                let old_score = self.scores[i].score;
                let score = Score {
                    applied: count_up(old_score.applied),
                    helped: if helped {
                        count_up(old_score.helped)
                    } else {
                        old_score.helped
                    },
                };
                let entry = ScoreEntry {
                    bucket: bucket.to_owned(),
                    workflow_id: workflow_id.to_owned(),
                    score,
                };
                self.scores.set(i, entry);
                proof {
                    assert(self@.scores =~= before.scores.update(
                        i as int,
                        ScoreEntryView { score, ..before.scores[i as int] },
                    ));
                    lemma_score_skip(before.scores, bucket@, workflow_id@, i as int);
                    assert(before.scores.skip(i as int)[0] == before.scores[i as int]);
                    assert forall|b: Seq<char>, w: Seq<char>| #[trigger]
                        score_in(self@.scores, b, w) == (if b == bucket@ && w == workflow_id@ {
                            score_in(before.scores, b, w).after_run(helped)
                        } else {
                            score_in(before.scores, b, w)
                        }) by {
                        lemma_score_update(before.scores, i as int, score, b, w);
                    }
                    assert(self@ =~= (LedgerView { scores: self@.scores, ..before }));
                }
                return;
            }
            i = i + 1;
        }
        let score = Score {
            applied: 1,
            helped: if helped {
                1
            } else {
                0
            },
        };
        self.scores.push(
            ScoreEntry {
                bucket: bucket.to_owned(),
                workflow_id: workflow_id.to_owned(),
                score,
            },
        );
        proof {
            let entry = ScoreEntryView { bucket: bucket@, workflow_id: workflow_id@, score };
            assert(self@.scores =~= before.scores.push(entry));
            lemma_score_skip(before.scores, bucket@, workflow_id@, before.scores.len() as int);
            assert(before.scores.skip(before.scores.len() as int) =~= Seq::empty());
            assert forall|b: Seq<char>, w: Seq<char>| #[trigger]
                score_in(self@.scores, b, w) == (if b == bucket@ && w == workflow_id@ {
                    score_in(before.scores, b, w).after_run(helped)
                } else {
                    score_in(before.scores, b, w)
                }) by {
                lemma_score_push(before.scores, entry, b, w);
            }
            assert(self@ =~= (LedgerView { scores: self@.scores, ..before }));
        }
    }

    /// How a workflow has performed for a bucket; one that was never run has a
    /// score of nothing.
    pub fn workflow_score(&self, bucket: &str, workflow_id: &str) -> (r: Score)
        ensures
            r == score_in(self@.scores, bucket@, workflow_id@),
    {
        let mut i: usize = 0;
        while i < self.scores.len()
            invariant
                i <= self.scores@.len(),
                forall|k: int|
                    0 <= k < i ==> !((#[trigger] self@.scores[k]).bucket == bucket@
                        && self@.scores[k].workflow_id == workflow_id@),
            decreases self.scores@.len() - i,
        {
            assert(self@.scores[i as int] == self.scores@[i as int]@);
            if same(self.scores[i].bucket.as_str(), bucket) && same(
                self.scores[i].workflow_id.as_str(),
                workflow_id,
            ) {
                proof {
                    lemma_score_skip(self@.scores, bucket@, workflow_id@, i as int);
                    assert(self@.scores.skip(i as int)[0] == self@.scores[i as int]);
                }
                return self.scores[i].score;
            }
            i = i + 1;
        }
        proof {
            lemma_score_skip(self@.scores, bucket@, workflow_id@, self@.scores.len() as int);
            assert(self@.scores.skip(self@.scores.len() as int) =~= Seq::empty());
        }
        Score::default()
    }

    fn find_episode(&self, bucket: &str, id: &str) -> (r: Option<usize>)
        ensures
            match r {
                Some(i) => is_first_episode(self@.episodes, bucket@, id@, i as int) && i
                    < self.episodes@.len() && i == (choose|k: int|
                    is_first_episode(self@.episodes, bucket@, id@, k)),
                None => !has_episode(self@.episodes, bucket@, id@),
            },
    {
        let mut i: usize = 0;
        while i < self.episodes.len()
            invariant
                i <= self.episodes@.len(),
                forall|k: int|
                    0 <= k < i ==> !is_episode(#[trigger] self@.episodes[k], bucket@, id@),
            decreases self.episodes@.len() - i,
        {
            assert(self@.episodes[i as int] == self.episodes@[i as int]@);
            if same(self.episodes[i].id.as_str(), id) && same_scope(
                &self.episodes[i].scope_key,
                bucket,
            ) {
                proof {
                    assert(is_first_episode(self@.episodes, bucket@, id@, i as int));
                    let k = choose|k: int| is_first_episode(self@.episodes, bucket@, id@, k);
                    assert(is_first_episode(self@.episodes, bucket@, id@, k));
                    if k < i {
                        assert(!is_episode(self@.episodes[k], bucket@, id@));
                    }
                    if i < k {
                        assert(!is_episode(self@.episodes[i as int], bucket@, id@));
                    }
                }
                return Some(i);
            }
            i = i + 1;
        }
        None
    }

    /// Saves an episode's record for a bucket, over the one it updates.
    pub fn save_episode(&mut self, bucket: &str, record: &Episode)
        ensures
            final(self)@ == (LedgerView {
                episodes: with_episode(old(self)@.episodes, bucket@, record@),
                ..old(self)@
            }),
    {
        let ghost before = self@;
        let mut stamped = record.clone();
        stamped.scope_key = bucket_scope(bucket);
        match self.find_episode(bucket, record.id.as_str()) {
            Some(i) => {
                assert(has_episode(before.episodes, bucket@, record.id@)) by {
                    assert(is_episode(before.episodes[i as int], bucket@, record.id@));
                }
                self.episodes.set(i, stamped);
            },
            None => {
                self.episodes.push(stamped);
            },
        }
        proof {
            assert(self@.episodes =~= with_episode(before.episodes, bucket@, record@));
            assert(self@ =~= (LedgerView {
                episodes: with_episode(before.episodes, bucket@, record@),
                ..before
            }));
        }
    }

    /// The record of an episode of this bucket.
    pub fn episode(&self, bucket: &str, id: &str) -> (r: Option<Episode>)
        ensures
            opt_view(r) == episode_in(self@.episodes, bucket@, id@),
    {
        match self.find_episode(bucket, id) {
            Some(i) => {
                assert(is_episode(self@.episodes[i as int], bucket@, id@));
                assert(has_episode(self@.episodes, bucket@, id@));
                Some(self.episodes[i].clone())
            },
            None => None,
        }
    }

    /// The episodes of a bucket, oldest first; only those still running where
    /// that is asked.
    pub fn episodes(&self, bucket: &str, running: bool) -> (r: Vec<Episode>)
        ensures
            views(r@) == episodes_for(self@.episodes, bucket@, running, self@.episodes.len()),
    {
        let mut found: Vec<Episode> = Vec::new();
        let mut i: usize = 0;
        assert(views(found@) =~= episodes_for(self@.episodes, bucket@, running, 0));
        while i < self.episodes.len()
            invariant
                i <= self.episodes@.len(),
                views(found@) == episodes_for(self@.episodes, bucket@, running, i as nat),
            decreases self.episodes@.len() - i,
        {
            let record = &self.episodes[i];
            assert(self@.episodes[i as int] == record@);
            let live = match &record.status {
                EpisodeStatus::Running => true,
                _ => false,
            };
            if same_scope(&record.scope_key, bucket) && (!running || live) {
                found.push(record.clone());
            }
            i = i + 1;
        }
        found
    }
}

proof fn lemma_rows_prefix(a: Seq<RowView>, b: Seq<RowView>, episode: Seq<char>, n: nat)
    requires
        n <= a.len(),
        n <= b.len(),
        forall|i: int| 0 <= i < n ==> a[i] == b[i],
    ensures
        rows_of(a, episode, n) == rows_of(b, episode, n),
    decreases n,
{
    if n > 0 {
        lemma_rows_prefix(a, b, episode, (n - 1) as nat);
    }
}

/// An appended row is the last of its episode, and no other episode sees it.
pub proof fn appended_rows_come_last(rows: Seq<RowView>, row: RowView, episode: Seq<char>)
    ensures
        rows_of(rows.push(row), episode, rows.len() + 1) == (if row.episode == episode {
            rows_of(rows, episode, rows.len()).push(row)
        } else {
            rows_of(rows, episode, rows.len())
        }),
{
    lemma_rows_prefix(rows.push(row), rows, episode, rows.len());
}

proof fn lemma_lessons_prefix(
    a: Seq<LessonView>,
    b: Seq<LessonView>,
    bucket: Seq<char>,
    kind: Option<LessonKind>,
    n: nat,
)
    requires
        n <= a.len(),
        n <= b.len(),
        forall|i: int| 0 <= i < n ==> a[i] == b[i],
    ensures
        lessons_for(a, bucket, kind, n) == lessons_for(b, bucket, kind, n),
    decreases n,
{
    if n > 0 {
        lemma_lessons_prefix(a, b, bucket, kind, (n - 1) as nat);
    }
}

/// A tenant's lesson is seen by that tenant and by no other; a lesson of the
/// shared bucket is seen by everyone.
pub proof fn lessons_stay_with_their_tenant(
    l: LedgerView,
    writer: Seq<char>,
    reader: Seq<char>,
    lesson: LessonView,
    row_ids: Seq<Seq<char>>,
)
    ensures
        ({
            let after = with_lesson(l, writer, lesson, row_ids);
            let before_seen = lessons_for(l.lessons, reader, None, l.lessons.len());
            let seen = lessons_for(after.lessons, reader, None, after.lessons.len());
            &&& writer.len() > 0 && reader != writer ==> seen == before_seen
            &&& writer.len() == 0 || reader == writer ==> seen == before_seen.push(
                after.lessons.last(),
            )
            &&& after.lessons.last().scope_key == unless_empty(writer)
        }),
{
    let after = with_lesson(l, writer, lesson, row_ids);
    lemma_lessons_prefix(after.lessons, l.lessons, reader, None, l.lessons.len());
}

/// Everything a bucket reads is its own or everyone's.
pub proof fn lessons_read_are_ones_own(
    lessons: Seq<LessonView>,
    bucket: Seq<char>,
    kind: Option<LessonKind>,
    n: nat,
)
    requires
        n <= lessons.len(),
    ensures
        forall|i: int|
            0 <= i < lessons_for(lessons, bucket, kind, n).len() ==> may_read(
                bucket,
                #[trigger] lessons_for(lessons, bucket, kind, n)[i],
            ) && wanted(kind, lessons_for(lessons, bucket, kind, n)[i]),
    decreases n,
{
    if n > 0 {
        lessons_read_are_ones_own(lessons, bucket, kind, (n - 1) as nat);
        let rest = lessons_for(lessons, bucket, kind, (n - 1) as nat);
        let all = lessons_for(lessons, bucket, kind, n);
        assert forall|i: int| 0 <= i < all.len() implies may_read(bucket, #[trigger] all[i])
            && wanted(kind, all[i]) by {
            if i < rest.len() {
                assert(all[i] == rest[i]);
            }
        }
    }
}

proof fn lemma_with_citations(
    citations: Seq<CitationView>,
    id: Seq<char>,
    row_ids: Seq<Seq<char>>,
    n: nat,
    row_id: Seq<char>,
)
    requires
        n <= row_ids.len(),
    ensures
        cites(with_citations(citations, id, row_ids, n), id, row_id) <==> (cites(
            citations,
            id,
            row_id,
        ) || row_ids.take(n as int).contains(row_id)),
    decreases n,
{
    if n > 0 {
        lemma_with_citations(citations, id, row_ids, (n - 1) as nat, row_id);
        let before = with_citations(citations, id, row_ids, (n - 1) as nat);
        let last = row_ids[n - 1];
        let now = with_citations(citations, id, row_ids, n);
        let sought = CitationView { lesson_id: id, row_id };
        let added = CitationView { lesson_id: id, row_id: last };
        let shorter = row_ids.take(n - 1);
        let longer = row_ids.take(n as int);
        assert(longer =~= shorter.push(last));
        if cites(before, id, row_id) {
            let k = choose|k: int| 0 <= k < before.len() && before[k] == sought;
            assert(now[k] == sought);
        }
        if !cites(before, id, last) {
            assert(now[before.len() as int] == added);
        }
        if cites(now, id, row_id) && !cites(before, id, row_id) {
            let k = choose|k: int| 0 <= k < now.len() && now[k] == sought;
            if k < before.len() {
                assert(before[k] == sought);
            }
            assert(row_id == last);
        }
        if longer.contains(row_id) {
            let k = choose|k: int| 0 <= k < longer.len() && longer[k] == row_id;
            if k < n - 1 {
                assert(shorter[k] == row_id);
            }
        }
        if shorter.contains(row_id) {
            let k = choose|k: int| 0 <= k < shorter.len() && shorter[k] == row_id;
            assert(longer[k] == row_id);
        }
        assert(longer[n - 1] == last);
    }
}

/// A promoted lesson can show the rows it cited: those, and what its id already
/// cited.
pub proof fn lessons_show_their_evidence(
    l: LedgerView,
    bucket: Seq<char>,
    lesson: LessonView,
    row_ids: Seq<Seq<char>>,
    row_id: Seq<char>,
)
    ensures
        ({
            let after = with_lesson(l, bucket, lesson, row_ids);
            let id = after.lessons.last().id;
            cites(after.citations, id, row_id) <==> row_ids.contains(row_id) || cites(
                l.citations,
                id,
                row_id,
            )
        }),
{
    let id = record_id("les"@, l.lessons.len() + 1);
    lemma_with_citations(l.citations, id, row_ids, row_ids.len(), row_id);
    assert(row_ids.take(row_ids.len() as int) =~= row_ids);
}

/// A saved episode reads back, stamped with its bucket, and no other bucket's
/// episodes change.
pub proof fn saved_episodes_read_back(
    episodes: Seq<EpisodeView>,
    bucket: Seq<char>,
    record: EpisodeView,
    other: Seq<char>,
    id: Seq<char>,
)
    ensures
        episode_in(with_episode(episodes, bucket, record), bucket, record.id) == Some(
            EpisodeView { scope_key: unless_empty(bucket), ..record },
        ),
        other != bucket || id != record.id ==> episode_in(
            with_episode(episodes, bucket, record),
            other,
            id,
        ) == episode_in(episodes, other, id),
{
    let next = with_episode(episodes, bucket, record);
    let stamped = EpisodeView { scope_key: unless_empty(bucket), ..record };
    let at = if has_episode(episodes, bucket, record.id) {
        lemma_first_episode(episodes, bucket, record.id);
        choose|i: int| is_first_episode(episodes, bucket, record.id, i)
    } else {
        episodes.len() as int
    };
    assert(next[at] == stamped);
    assert(is_first_episode(next, bucket, record.id, at));
    lemma_first_unique(next, bucket, record.id, at);
    assert(is_episode(next[at], bucket, record.id));
    if other != bucket || id != record.id {
        assert(!is_episode(stamped, other, id)) by {
            if other != bucket && id == record.id {
                if other.len() == 0 && bucket.len() == 0 {
                    assert(other =~= bucket);
                }
            }
        }
        if has_episode(episodes, other, id) {
            lemma_first_episode(episodes, other, id);
            let k = choose|k: int| is_first_episode(episodes, other, id, k);
            assert(is_episode(next[k], other, id));
            assert(is_first_episode(next, other, id, k)) by {
                assert forall|j: int| 0 <= j < k implies !is_episode(
                    #[trigger] next[j],
                    other,
                    id,
                ) by {
                    if j != at {
                        assert(next[j] == episodes[j]);
                    }
                }
            }
            lemma_first_unique(next, other, id, k);
        } else if has_episode(next, other, id) {
            let k = choose|k: int| 0 <= k < next.len() && is_episode(#[trigger] next[k], other, id);
            assert(k != at);
            assert(next[k] == episodes[k]);
        }
    }
}

proof fn lemma_first_episode(episodes: Seq<EpisodeView>, bucket: Seq<char>, id: Seq<char>)
    requires
        has_episode(episodes, bucket, id),
    ensures
        exists|i: int| is_first_episode(episodes, bucket, id, i),
{
    let k = choose|k: int| 0 <= k < episodes.len() && is_episode(#[trigger] episodes[k], bucket, id);
    lemma_first_before(episodes, bucket, id, k);
}

proof fn lemma_first_before(episodes: Seq<EpisodeView>, bucket: Seq<char>, id: Seq<char>, k: int)
    requires
        0 <= k < episodes.len(),
        is_episode(episodes[k], bucket, id),
    ensures
        exists|i: int| is_first_episode(episodes, bucket, id, i),
    decreases k,
{
    if exists|j: int| 0 <= j < k && is_episode(#[trigger] episodes[j], bucket, id) {
        let j = choose|j: int| 0 <= j < k && is_episode(#[trigger] episodes[j], bucket, id);
        lemma_first_before(episodes, bucket, id, j);
    } else {
        assert(is_first_episode(episodes, bucket, id, k));
    }
}

proof fn lemma_first_unique(episodes: Seq<EpisodeView>, bucket: Seq<char>, id: Seq<char>, i: int)
    requires
        is_first_episode(episodes, bucket, id, i),
    ensures
        has_episode(episodes, bucket, id),
        i == (choose|k: int| is_first_episode(episodes, bucket, id, k)),
{
    assert(is_episode(episodes[i], bucket, id));
    let k = choose|k: int| is_first_episode(episodes, bucket, id, k);
    assert(is_first_episode(episodes, bucket, id, k));
    if k < i {
        assert(!is_episode(episodes[k], bucket, id));
    }
    if i < k {
        assert(!is_episode(episodes[i], bucket, id));
    }
}

} // verus!
