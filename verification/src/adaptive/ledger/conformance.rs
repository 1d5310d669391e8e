//! Sample rows and lessons that every ledger backend is held to.
use vstd::prelude::*;

use crate::adaptive::ledger::{LedgerRow, Lesson, LessonKind, LessonView, RowView};
use crate::text::{decimal, decimal_text, padded_text, zero_padded};

verus! {

/// A row with the fields a check does not care about filled in.
pub open spec fn sample_row(episode: Seq<char>, attempt: u32, sig: Seq<char>) -> RowView {
    RowView {
        id: Seq::empty(),
        episode,
        attempt,
        approach_sig: sig,
        approach_desc: "attempt "@ + decimal(attempt as nat) + " via "@ + sig,
        workflow_id: None,
        outcome: Seq::empty(),
        cause: Seq::empty(),
        at: "2026-01-01T00:00:"@ + zero_padded(decimal(attempt as nat), 2) + "Z"@,
        satisfied: false,
        advanced: false,
    }
}

/// A row with the fields a check does not care about filled in.
pub fn row(episode: &str, attempt: u32, sig: &str) -> (r: LedgerRow)
    ensures
        r@ == sample_row(episode@, attempt, sig@),
{
    let mut desc = "attempt ".to_owned();
    desc.append(decimal_text(attempt as u64).as_str());
    desc.append(" via ");
    desc.append(sig);
    let mut at = "2026-01-01T00:00:".to_owned();
    at.append(padded_text(attempt as u64, 2).as_str());
    at.append("Z");
    LedgerRow {
        id: String::new(),
        episode: episode.to_owned(),
        attempt,
        approach_sig: sig.to_owned(),
        approach_desc: desc,
        workflow_id: None,
        outcome: String::new(),
        cause: String::new(),
        at,
        satisfied: false,
        advanced: false,
    }
}

/// A lesson with a trigger that describes a class rather than an instance.
pub open spec fn sample_lesson(trigger: Seq<char>) -> LessonView {
    LessonView {
        id: Seq::empty(),
        kind: LessonKind::Constraint,
        trigger,
        mechanism: "because the API caps a page at 100"@,
        claim: "page the listing rather than raising per_page"@,
        applied: 0,
        helped: 0,
        scope_key: None,
    }
}

/// A lesson with a trigger that describes a class rather than an instance.
pub fn lesson(trigger: &str) -> (r: Lesson)
    ensures
        r@ == sample_lesson(trigger@),
{
    Lesson {
        id: String::new(),
        kind: LessonKind::Constraint,
        trigger: trigger.to_owned(),
        mechanism: "because the API caps a page at 100".to_owned(),
        claim: "page the listing rather than raising per_page".to_owned(),
        applied: 0,
        helped: 0,
        scope_key: None,
    }
}

} // verus!
