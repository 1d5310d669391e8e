//! What is decided after an attempt, and what closing one writes.
use tinyflows::adaptive::closing::{
    close, close_in, decide_next, new_episode, outcome_line, why, Next,
};
use tinyflows::adaptive::contracts::{Approach, Blocker, Budget, Goal, Verdict};
use tinyflows::adaptive::ledger::memory::MemoryLedger;
use tinyflows::adaptive::ledger::EpisodeStatus;

fn verdict(satisfied: bool, blocker: Blocker, advanced: bool) -> Verdict {
    Verdict {
        satisfied,
        blocker,
        gap: "something is missing".into(),
        attributed_to: String::new(),
        evidence: String::new(),
        advanced,
    }
}

fn selected(id: &str) -> Approach {
    Approach::Selected { workflow_id: id.into(), why: "it fits".into() }
}

#[test]
fn a_satisfied_verdict_is_done() {
    let next = decide_next(&verdict(true, Blocker::Nothing, true), 1, 0, &Budget::default());
    assert_eq!(next, Next::Done);
}

#[test]
fn an_ordinary_shortfall_retries() {
    let next = decide_next(&verdict(false, Blocker::GoalNotMet, true), 1, 0, &Budget::default());
    assert_eq!(next, Next::Retry);
}

#[test]
fn a_terminal_blocker_stands_down_naming_itself() {
    let next = decide_next(&verdict(false, Blocker::NeedsInput, true), 1, 0, &Budget::default());
    match next {
        Next::StandDown(reason) => assert!(reason.contains("NeedsInput"), "{reason}"),
        other => panic!("expected a stand-down, got {other:?}"),
    }
}

#[test]
fn a_spent_budget_says_so_rather_than_blaming_the_approach() {
    let next = decide_next(&verdict(false, Blocker::GoalNotMet, true), 12, 0, &Budget::default());
    match next {
        Next::StandDown(reason) => assert!(reason.contains("out of attempts"), "{reason}"),
        other => panic!("expected a stand-down, got {other:?}"),
    }
}

#[test]
fn a_stall_says_so_rather_than_blaming_the_budget() {
    let next = decide_next(&verdict(false, Blocker::GoalNotMet, false), 5, 2, &Budget::default());
    match next {
        Next::StandDown(reason) => assert!(reason.contains("no progress"), "{reason}"),
        other => panic!("expected a stand-down, got {other:?}"),
    }
}

#[test]
fn an_advancing_attempt_clears_the_stall_count() {
    // A run converging over five attempts must not accumulate a stall from the
    // two that looked flat.
    let budget = Budget::default();
    assert_eq!(
        decide_next(&verdict(false, Blocker::GoalNotMet, true), 9, 0, &budget),
        Next::Retry
    );
}

#[test]
fn the_ledger_row_records_a_failure_in_its_own_words() {
    let v = verdict(false, Blocker::GoalNotMet, true);
    assert_eq!(outcome_line(&v), "something is missing");
    assert_eq!(outcome_line(&verdict(true, Blocker::Nothing, true)), "satisfied");
}

#[test]
fn a_blockers_name_is_the_outcome_when_the_judge_gave_no_gap() {
    let mut v = verdict(false, Blocker::MissingEvidence, false);
    v.gap = String::new();
    assert_eq!(outcome_line(&v), "MissingEvidence");
}

#[test]
fn each_reason_to_stand_down_is_written_out() {
    let budget = Budget::default();
    assert_eq!(
        decide_next(&verdict(false, Blocker::NeedsInput, true), 1, 0, &budget),
        Next::StandDown("NeedsInput — something is missing".into())
    );
    assert_eq!(
        decide_next(&verdict(false, Blocker::GoalNotMet, true), 12, 0, &budget),
        Next::StandDown("out of attempts after 12".into())
    );
    assert_eq!(
        decide_next(&verdict(false, Blocker::GoalNotMet, false), 5, 2, &budget),
        Next::StandDown("2 attempts in a row made no progress".into())
    );
}

#[test]
fn a_blocker_is_named_before_a_spent_budget() {
    let next = decide_next(&verdict(false, Blocker::NeedsInput, false), 12, 2, &Budget::default());
    assert_eq!(next, Next::StandDown("NeedsInput — something is missing".into()));
}

#[test]
fn a_budget_is_spent_at_its_last_attempt() {
    let budget = Budget { max_attempts: 3, max_stalled: 2 };
    assert!(!budget.exhausted(2));
    assert!(budget.exhausted(3));
    assert_eq!(
        decide_next(&verdict(false, Blocker::GoalNotMet, true), 2, 0, &budget),
        Next::Retry
    );
}

#[test]
fn closing_keeps_what_the_attempt_was_and_how_it_went() {
    let closing = close(
        &Goal::new("write the report"),
        "ep-1",
        1,
        &selected("weekly"),
        &verdict(false, Blocker::GoalNotMet, false),
        &Budget::default(),
        None,
        "2026-01-02T00:00:00Z",
    );
    assert_eq!(closing.row.episode, "ep-1");
    assert_eq!(closing.row.attempt, 1);
    assert_eq!(closing.row.approach_sig, "selected:weekly");
    assert_eq!(closing.row.approach_desc, "it fits");
    assert_eq!(closing.row.workflow_id.as_deref(), Some("weekly"));
    assert_eq!(closing.row.outcome, "something is missing");
    assert_eq!(closing.row.cause, "something is missing");
    assert_eq!(closing.scored.as_deref(), Some("weekly"));
    assert_eq!(closing.stalled, 1);
    assert_eq!(closing.next, Next::Retry);
    assert_eq!(closing.record.status, EpisodeStatus::Running);
    assert_eq!(closing.record.attempt, 1);
    assert_eq!(closing.record.goal.text, "write the report");
}

#[test]
fn closing_goes_on_from_the_record_held() {
    let mut held = new_episode("ep-1", &Goal::new("write the report"), "2026-01-01T00:00:00Z");
    held.attempt = 3;
    held.stalled = 1;
    let closing = close(
        &Goal::new("write the report"),
        "ep-1",
        4,
        &selected("weekly"),
        &verdict(false, Blocker::GoalNotMet, false),
        &Budget::default(),
        Some(held),
        "2026-01-02T00:00:00Z",
    );
    assert_eq!(closing.stalled, 2);
    assert_eq!(
        closing.record.status,
        EpisodeStatus::StoodDown("2 attempts in a row made no progress".into())
    );
    assert_eq!(closing.record.started_at, "2026-01-01T00:00:00Z");
    assert_eq!(closing.record.updated_at, "2026-01-02T00:00:00Z");
}

#[test]
fn a_closed_attempt_can_be_read_back_from_the_ledger() {
    let mut ledger = MemoryLedger::new();
    let closed = close_in(
        &mut ledger,
        "",
        &Goal::new("write the report"),
        "ep-1",
        1,
        &selected("weekly"),
        verdict(true, Blocker::Nothing, true),
        &Budget::default(),
        "2026-01-02T00:00:00Z",
    );
    assert_eq!(closed.next, Next::Done);
    let rows = ledger.rows("ep-1");
    assert_eq!(rows.len(), 1);
    assert_eq!(rows[0].id, closed.row_id);
    assert_eq!(rows[0].outcome, "satisfied");
    assert_eq!(ledger.tried("ep-1"), vec!["selected:weekly".to_string()]);
    let score = ledger.workflow_score("", "weekly");
    assert_eq!((score.applied, score.helped), (1, 1));
    let record = ledger.episode("", "ep-1").expect("saved");
    assert_eq!(record.status, EpisodeStatus::Satisfied);
}

#[test]
fn an_authored_attempt_scores_no_workflow() {
    let approach = Approach::Authored { why: "nothing fits".into(), fingerprint: "abc".into() };
    let closing = close(
        &Goal::new("write the report"),
        "ep-1",
        1,
        &approach,
        &verdict(true, Blocker::Nothing, true),
        &Budget::default(),
        None,
        "2026-01-02T00:00:00Z",
    );
    assert_eq!(closing.scored, None);
    assert_eq!(closing.row.workflow_id, None);
    assert_eq!(closing.row.approach_sig, "authored:abc");
    assert_eq!(closing.row.cause, "", "it did not fall short");
    assert_eq!(why(&approach), "nothing fits");
}

#[test]
fn a_stall_count_at_its_end_is_no_bar_to_progress() {
    let mut held = new_episode("ep-1", &Goal::new("write the report"), "2026-01-01T00:00:00Z");
    held.stalled = u32::MAX;
    let closing = close(
        &Goal::new("write the report"),
        "ep-1",
        2,
        &selected("weekly"),
        &verdict(false, Blocker::GoalNotMet, true),
        &Budget::default(),
        Some(held),
        "2026-01-02T00:00:00Z",
    );
    assert_eq!(closing.stalled, 0);
    assert_eq!(closing.next, Next::Retry);
}
