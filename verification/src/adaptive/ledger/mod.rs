//! Everything that spans runs: what was tried, what it taught, and which
//! stored workflows have earned their place.
use vstd::prelude::*;

use crate::adaptive::contracts::{Goal, GoalView};
use crate::text::{
    copy_opt, decimal, lemma_views_push, lowered_ascii, opt_view, padded_text, same, to_lower_ascii,
    trim, trimmed, views, zero_padded,
};

pub mod conformance;
pub mod memory;
pub mod record_laws;
pub mod stored;

verus! {

broadcast use lemma_views_push;

/// What went wrong reaching the ledger.
#[derive(Debug, PartialEq, Eq)]
pub enum LedgerError {
    /// The backend refused or was unreachable.
    Backend(String),
    /// Something was stored that no longer parses.
    Corrupt(String),
}

#[verifier::ext_equal]
pub enum LedgerErrorView {
    Backend(Seq<char>),
    Corrupt(Seq<char>),
}

impl View for LedgerError {
    type V = LedgerErrorView;

    open spec fn view(&self) -> LedgerErrorView {
        match *self {
            LedgerError::Backend(text) => LedgerErrorView::Backend(text@),
            LedgerError::Corrupt(text) => LedgerErrorView::Corrupt(text@),
        }
    }
}

impl LedgerErrorView {
    pub open spec fn message(self) -> Seq<char> {
        match self {
            LedgerErrorView::Backend(text) => "ledger backend: "@ + text,
            LedgerErrorView::Corrupt(text) => "ledger holds a row it cannot read: "@ + text,
        }
    }
}

impl LedgerError {
    /// The error in words.
    pub fn message(&self) -> (r: String)
        ensures
            r@ == self@.message(),
    {
        match self {
            LedgerError::Backend(text) => {
                let mut message = "ledger backend: ".to_owned();
                message.append(text.as_str());
                message
            },
            LedgerError::Corrupt(text) => {
                let mut message = "ledger holds a row it cannot read: ".to_owned();
                message.append(text.as_str());
                message
            },
        }
    }
}

/// One attempt, recorded as it finishes.
#[derive(Debug, PartialEq, Eq)]
pub struct LedgerRow {
    /// Assigned on append; empty when not yet stored.
    pub id: String,
    /// The episode this attempt belongs to: one goal, many attempts.
    pub episode: String,
    /// Counted from one.
    pub attempt: u32,
    /// What the exclusion list is built from.
    pub approach_sig: String,
    /// The approach in a sentence.
    pub approach_desc: String,
    /// The workflow that ran, when one did.
    pub workflow_id: Option<String>,
    /// What happened, in the judge's words.
    pub outcome: String,
    /// Why it fell short. Empty when it did not.
    pub cause: String,
    /// When, as the caller says.
    pub at: String,
    pub satisfied: bool,
    pub advanced: bool,
}

#[verifier::ext_equal]
pub struct RowView {
    pub id: Seq<char>,
    pub episode: Seq<char>,
    pub attempt: u32,
    pub approach_sig: Seq<char>,
    pub approach_desc: Seq<char>,
    pub workflow_id: Option<Seq<char>>,
    pub outcome: Seq<char>,
    pub cause: Seq<char>,
    pub at: Seq<char>,
    pub satisfied: bool,
    pub advanced: bool,
}

impl View for LedgerRow {
    type V = RowView;

    open spec fn view(&self) -> RowView {
        RowView {
            id: self.id@,
            episode: self.episode@,
            attempt: self.attempt,
            approach_sig: self.approach_sig@,
            approach_desc: self.approach_desc@,
            workflow_id: opt_view(self.workflow_id),
            outcome: self.outcome@,
            cause: self.cause@,
            at: self.at@,
            satisfied: self.satisfied,
            advanced: self.advanced,
        }
    }
}

impl Clone for LedgerRow {
    fn clone(&self) -> (r: Self)
        ensures
            r@ == self@,
    {
        LedgerRow {
            id: self.id.clone(),
            episode: self.episode.clone(),
            attempt: self.attempt,
            approach_sig: self.approach_sig.clone(),
            approach_desc: self.approach_desc.clone(),
            workflow_id: copy_opt(&self.workflow_id),
            outcome: self.outcome.clone(),
            cause: self.cause.clone(),
            at: self.at.clone(),
            satisfied: self.satisfied,
            advanced: self.advanced,
        }
    }
}

/// The four kinds of thing an episode can teach.
#[derive(Debug, Clone, Copy, PartialEq, Eq, Structural)]
pub enum LessonKind {
    /// X works where Y fails.
    Strategy,
    /// A limit no approach here can cross.
    Constraint,
    /// A way this silently looks done when it is not.
    FailureMode,
    /// An estimate that was systematically wrong.
    Calibration,
}

/// The name a kind is stored under.
pub open spec fn lesson_kind_text(kind: LessonKind) -> Seq<char> {
    match kind {
        LessonKind::Strategy => "strategy"@,
        LessonKind::Constraint => "constraint"@,
        LessonKind::FailureMode => "failure_mode"@,
        LessonKind::Calibration => "calibration"@,
    }
}

/// The kind a name stands for; anything unrecognised is a strategy.
pub open spec fn lesson_kind_of(raw: Seq<char>) -> LessonKind {
    let name = lowered_ascii(trimmed(raw));
    if name == "constraint"@ {
        LessonKind::Constraint
    } else if name == "failure_mode"@ {
        LessonKind::FailureMode
    } else if name == "calibration"@ {
        LessonKind::Calibration
    } else {
        LessonKind::Strategy
    }
}

impl LessonKind {
    /// Reads a model's answer, defaulting to the least actionable kind.
    pub fn parse(raw: &str) -> (r: Self)
        ensures
            r == lesson_kind_of(raw@),
    {
        let inner = trim(raw);
        let name = to_lower_ascii(inner.as_str());
        if same(name.as_str(), "constraint") {
            LessonKind::Constraint
        } else if same(name.as_str(), "failure_mode") {
            LessonKind::FailureMode
        } else if same(name.as_str(), "calibration") {
            LessonKind::Calibration
        } else {
            LessonKind::Strategy
        }
    }
}

/// The name a kind is stored under.
pub fn kind_str(kind: LessonKind) -> (r: &'static str)
    ensures
        r@ == lesson_kind_text(kind),
{
    match kind {
        LessonKind::Strategy => "strategy",
        LessonKind::Constraint => "constraint",
        LessonKind::FailureMode => "failure_mode",
        LessonKind::Calibration => "calibration",
    }
}

/// Something a different task could act on.
#[derive(Debug, PartialEq, Eq)]
pub struct Lesson {
    /// Assigned on promotion.
    pub id: String,
    pub kind: LessonKind,
    /// The class of situation it applies to.
    pub trigger: String,
    /// Why it is true.
    pub mechanism: String,
    /// What to do about it.
    pub claim: String,
    /// How many times it was put in front of a planner.
    pub applied: u32,
    /// How many of those ended satisfied.
    pub helped: u32,
    /// The tenant it belongs to; none for a lesson everyone may read.
    pub scope_key: Option<String>,
}

#[verifier::ext_equal]
pub struct LessonView {
    pub id: Seq<char>,
    pub kind: LessonKind,
    pub trigger: Seq<char>,
    pub mechanism: Seq<char>,
    pub claim: Seq<char>,
    pub applied: u32,
    pub helped: u32,
    pub scope_key: Option<Seq<char>>,
}

impl View for Lesson {
    type V = LessonView;

    open spec fn view(&self) -> LessonView {
        LessonView {
            id: self.id@,
            kind: self.kind,
            trigger: self.trigger@,
            mechanism: self.mechanism@,
            claim: self.claim@,
            applied: self.applied,
            helped: self.helped,
            scope_key: opt_view(self.scope_key),
        }
    }
}

impl Clone for Lesson {
    fn clone(&self) -> (r: Self)
        ensures
            r@ == self@,
    {
        Lesson {
            id: self.id.clone(),
            kind: self.kind,
            trigger: self.trigger.clone(),
            mechanism: self.mechanism.clone(),
            claim: self.claim.clone(),
            applied: self.applied,
            helped: self.helped,
            scope_key: copy_opt(&self.scope_key),
        }
    }
}

/// How a stored workflow has performed.
#[derive(Debug, Clone, Copy, PartialEq, Eq, Structural)]
pub struct Score {
    /// Times this workflow was chosen and run.
    pub applied: u32,
    /// Times that ended satisfied.
    pub helped: u32,
}

pub open spec fn no_score() -> Score {
    Score { applied: 0, helped: 0 }
}

/// A counter one higher, where it can go higher.
pub open spec fn counted(n: u32) -> u32 {
    if n < u32::MAX {
        (n + 1) as u32
    } else {
        n
    }
}

impl Score {
    /// The score after one more run.
    pub open spec fn after_run(self, helped: bool) -> Score {
        Score {
            applied: counted(self.applied),
            helped: if helped {
                counted(self.helped)
            } else {
                self.helped
            },
        }
    }
}

impl Default for Score {
    fn default() -> (r: Self)
        ensures
            r == no_score(),
    {
        Score { applied: 0, helped: 0 }
    }
}

/// A counter one higher, where it can go higher.
pub fn count_up(n: u32) -> (r: u32)
    ensures
        r == counted(n),
{
    if n < u32::MAX {
        n + 1
    } else {
        n
    }
}

/// A run can only help where it was made: the helped count never passes the
/// applied count.
pub proof fn helped_never_passes_applied(score: Score, helped: bool)
    requires
        score.helped <= score.applied,
    ensures
        score.after_run(helped).helped <= score.after_run(helped).applied,
        score.applied < u32::MAX ==> score.after_run(helped).applied == score.applied + 1,
        score.applied < u32::MAX ==> score.after_run(helped).helped == score.helped + (if helped {
            1int
        } else {
            0int
        }),
{
}

/// Every stored name reads back as the kind it names.
pub proof fn lesson_kinds_read_back(kind: LessonKind)
    ensures
        lesson_kind_of(lesson_kind_text(kind)) == kind,
{
    reveal_strlit("strategy");
    reveal_strlit("constraint");
    reveal_strlit("failure_mode");
    reveal_strlit("calibration");
    let name = lesson_kind_text(kind);
    assert(name.len() > 0 && !crate::text::is_white(name[0]) && !crate::text::is_white(name.last()));
    assert(trimmed(name) == name);
    assert(lowered_ascii(name) =~= name);
    assert("strategy"@.len() == 8 && "constraint"@.len() == 10 && "failure_mode"@.len() == 12
        && "calibration"@.len() == 11);
}

/// How an episode stands.
#[derive(Debug, PartialEq, Eq)]
pub enum EpisodeStatus {
    Running,
    Satisfied,
    /// Stopped without success, and why.
    StoodDown(String),
}

#[verifier::ext_equal]
pub enum StatusView {
    Running,
    Satisfied,
    StoodDown(Seq<char>),
}

impl View for EpisodeStatus {
    type V = StatusView;

    open spec fn view(&self) -> StatusView {
        match *self {
            EpisodeStatus::Running => StatusView::Running,
            EpisodeStatus::Satisfied => StatusView::Satisfied,
            EpisodeStatus::StoodDown(reason) => StatusView::StoodDown(reason@),
        }
    }
}

impl Clone for EpisodeStatus {
    fn clone(&self) -> (r: Self)
        ensures
            r@ == self@,
    {
        match self {
            EpisodeStatus::Running => EpisodeStatus::Running,
            EpisodeStatus::Satisfied => EpisodeStatus::Satisfied,
            EpisodeStatus::StoodDown(reason) => EpisodeStatus::StoodDown(reason.clone()),
        }
    }
}

/// One goal under way: everything about it that its rows do not hold.
#[derive(Debug, PartialEq, Eq)]
pub struct Episode {
    pub id: String,
    pub goal: Goal,
    pub scope_key: Option<String>,
    pub status: EpisodeStatus,
    /// The last attempt made.
    pub attempt: u32,
    /// Attempts in a row that made no progress.
    pub stalled: u32,
    pub started_at: String,
    pub updated_at: String,
}

#[verifier::ext_equal]
pub struct EpisodeView {
    pub id: Seq<char>,
    pub goal: GoalView,
    pub scope_key: Option<Seq<char>>,
    pub status: StatusView,
    pub attempt: u32,
    pub stalled: u32,
    pub started_at: Seq<char>,
    pub updated_at: Seq<char>,
}

impl View for Episode {
    type V = EpisodeView;

    open spec fn view(&self) -> EpisodeView {
        EpisodeView {
            id: self.id@,
            goal: self.goal@,
            scope_key: opt_view(self.scope_key),
            status: self.status@,
            attempt: self.attempt,
            stalled: self.stalled,
            started_at: self.started_at@,
            updated_at: self.updated_at@,
        }
    }
}

impl Clone for Episode {
    fn clone(&self) -> (r: Self)
        ensures
            r@ == self@,
    {
        Episode {
            id: self.id.clone(),
            goal: self.goal.clone(),
            scope_key: copy_opt(&self.scope_key),
            status: self.status.clone(),
            attempt: self.attempt,
            stalled: self.stalled,
            started_at: self.started_at.clone(),
            updated_at: self.updated_at.clone(),
        }
    }
}

/// The signatures of the first `n` rows, each once, in the order first spent.
pub open spec fn signatures_of(rows: Seq<RowView>, n: nat) -> Seq<Seq<char>>
    decreases n,
{
    if n == 0 {
        Seq::empty()
    } else {
        let seen = signatures_of(rows, (n - 1) as nat);
        if seen.contains(rows[n - 1].approach_sig) {
            seen
        } else {
            seen.push(rows[n - 1].approach_sig)
        }
    }
}

/// Whether a text is among the given ones.
pub fn among(texts: &Vec<String>, text: &str) -> (r: bool)
    ensures
        r == views(texts@).contains(text@),
{
    let mut i: usize = 0;
    while i < texts.len()
        invariant
            i <= texts.len(),
            forall|k: int| 0 <= k < i ==> views(texts@)[k] != text@,
        decreases texts.len() - i,
    {
        assert(views(texts@)[i as int] == texts@[i as int]@);
        if same(texts[i].as_str(), text) {
            return true;
        }
        i = i + 1;
    }
    false
}

/// The approach signatures already spent, each once, in the order first spent:
/// the exclusion list.
pub fn signatures(rows: &Vec<LedgerRow>) -> (r: Vec<String>)
    ensures
        views(r@) == signatures_of(views(rows@), rows@.len()),
{
    let mut seen: Vec<String> = Vec::new();
    let mut i: usize = 0;
    assert(views(seen@) =~= signatures_of(views(rows@), 0));
    while i < rows.len()
        invariant
            i <= rows.len(),
            views(seen@) == signatures_of(views(rows@), i as nat),
        decreases rows.len() - i,
    {
        assert(views(rows@)[i as int] == rows@[i as int]@);
        if !among(&seen, rows[i].approach_sig.as_str()) {
            seen.push(rows[i].approach_sig.clone());
        }
        i = i + 1;
    }
    seen
}

/// The exclusion list holds every signature spent, and each once.
pub proof fn exclusion_list_is_complete(rows: Seq<RowView>, n: nat)
    requires
        n <= rows.len(),
    ensures
        signatures_of(rows, n).no_duplicates(),
        forall|i: int|
            0 <= i < n ==> signatures_of(rows, n).contains((#[trigger] rows[i]).approach_sig),
        forall|k: int|
            0 <= k < signatures_of(rows, n).len() ==> exists|i: int|
                0 <= i < n && (#[trigger] rows[i]).approach_sig == #[trigger] signatures_of(
                    rows,
                    n,
                )[k],
    decreases n,
{
    if n > 0 {
        exclusion_list_is_complete(rows, (n - 1) as nat);
        let seen = signatures_of(rows, (n - 1) as nat);
        let now = signatures_of(rows, n);
        let sig = rows[n - 1].approach_sig;
        assert forall|i: int| 0 <= i < n implies now.contains(
            (#[trigger] rows[i]).approach_sig,
        ) by {
            if i < n - 1 {
                let k = choose|k: int| 0 <= k < seen.len() && seen[k] == rows[i].approach_sig;
                assert(now[k] == rows[i].approach_sig);
            } else if !seen.contains(sig) {
                assert(now[seen.len() as int] == sig);
            }
        }
        assert forall|k: int| 0 <= k < now.len() implies exists|i: int|
            0 <= i < n && (#[trigger] rows[i]).approach_sig == #[trigger] now[k] by {
            if k < seen.len() {
                assert(now[k] == seen[k]);
                let i = choose|i: int|
                    0 <= i < n - 1 && (#[trigger] rows[i]).approach_sig == seen[k];
                assert(rows[i].approach_sig == now[k]);
            } else {
                assert(rows[n - 1].approach_sig == now[k]);
            }
        }
    }
}

/// The id of the record numbered `seq`.
pub open spec fn record_id(prefix: Seq<char>, seq: nat) -> Seq<char> {
    prefix + "_"@ + zero_padded(decimal(seq), 8)
}

/// The id of the record numbered `seq`: the prefix and at least eight digits.
pub fn new_id(prefix: &str, seq: u64) -> (r: String)
    ensures
        r@ == record_id(prefix@, seq as nat),
{
    let mut id = prefix.to_owned();
    id.append("_");
    id.append(padded_text(seq, 8).as_str());
    id
}

} // verus!
