//! What every ledger promises, held against the one in memory.
use tinyflows::adaptive::contracts::Goal;
use tinyflows::adaptive::driver::{attempt_number, begin, ending, finish, follow_up, start, Clock, FollowUp};
use tinyflows::adaptive::closing::Next;
use tinyflows::adaptive::contracts::{Approach, Blocker, Verdict};
use tinyflows::adaptive::ledger::conformance::{lesson, row};
use tinyflows::adaptive::ledger::memory::MemoryLedger;
use tinyflows::adaptive::ledger::stored::{as_u32, bucket, next_seq, stored_count};
use tinyflows::adaptive::ledger::{
    count_up, kind_str, new_id, signatures, Episode, EpisodeStatus, LedgerError, LessonKind,
};

struct Frozen;

impl Clock for Frozen {
    fn now(&self) -> String {
        "2026-01-01T00:00:00Z".to_string()
    }
}

fn record(id: &str, status: EpisodeStatus) -> Episode {
    Episode {
        id: id.into(),
        goal: Goal::new("something"),
        scope_key: None,
        status,
        attempt: 1,
        stalled: 0,
        started_at: "2026-01-01T00:00:00Z".into(),
        updated_at: "2026-01-01T00:00:00Z".into(),
    }
}

#[test]
fn appended_rows_come_back_in_order() {
    let mut store = MemoryLedger::new();
    for n in 1..=3 {
        store.append(&row("ep-order", n, "authored"));
    }
    let got = store.rows("ep-order");
    assert_eq!(got.iter().map(|r| r.attempt).collect::<Vec<_>>(), vec![1, 2, 3]);
    assert!(!got[0].id.is_empty(), "append must assign an id");
    assert_eq!(got[0].at, "2026-01-01T00:00:01Z");
    assert_eq!(got[0].approach_desc, "attempt 1 via authored");
}

#[test]
fn an_episode_sees_only_its_own_rows() {
    let mut store = MemoryLedger::new();
    store.append(&row("ep-a", 1, "authored"));
    store.append(&row("ep-b", 1, "authored"));
    assert_eq!(store.rows("ep-a").len(), 1);
    assert_eq!(store.rows("ep-b").len(), 1);
}

#[test]
fn tried_is_the_deduplicated_exclusion_list() {
    let mut store = MemoryLedger::new();
    store.append(&row("ep-tried", 1, "selected:pr-review"));
    store.append(&row("ep-tried", 2, "authored"));
    store.append(&row("ep-tried", 3, "authored"));
    let tried = store.tried("ep-tried");
    assert_eq!(tried, vec!["selected:pr-review".to_string(), "authored".to_string()]);
    assert_eq!(signatures(&store.rows("ep-tried")), tried);
}

#[test]
fn an_unknown_episode_is_empty_not_an_error() {
    let store = MemoryLedger::new();
    assert!(store.rows("never-seen").is_empty());
    assert!(store.tried("never-seen").is_empty());
}

#[test]
fn a_lesson_round_trips_with_its_evidence() {
    let mut store = MemoryLedger::new();
    let a = store.append(&row("ep-lesson", 1, "authored"));
    let b = store.append(&row("ep-lesson", 2, "authored"));
    let id = store.promote(
        "",
        &lesson("a paginated listing API with a hard per-page cap"),
        &vec![a.clone(), b.clone()],
    );
    assert!(!id.is_empty());
    let mut ids: Vec<String> = store.evidence(&id).into_iter().map(|r| r.id).collect();
    ids.sort();
    let mut want = vec![a, b];
    want.sort();
    assert_eq!(ids, want);
}

#[test]
fn lessons_filter_by_kind() {
    let mut store = MemoryLedger::new();
    store.promote("", &lesson("a constraint"), &vec![]);
    let mut strategy = lesson("a wide fan-out over independent items");
    strategy.kind = LessonKind::Strategy;
    store.promote("", &strategy, &vec![]);

    let only = store.lessons("", Some(LessonKind::Strategy));
    assert_eq!(only.len(), 1);
    assert!(only.iter().all(|l| l.kind == LessonKind::Strategy));
    assert_eq!(store.lessons("", None).len(), 2);
}

#[test]
fn scoring_a_lesson_moves_applied_always_and_helped_conditionally() {
    let mut store = MemoryLedger::new();
    let id = store.promote("", &lesson("a scoring probe"), &vec![]);
    store.score_lesson(&id, true);
    store.score_lesson(&id, false);
    let found = store.lessons("", None).into_iter().find(|l| l.id == id).expect("promoted");
    assert_eq!(found.applied, 2, "shown twice");
    assert_eq!(found.helped, 1, "only one of those runs was satisfied");
}

#[test]
fn a_workflow_nobody_has_run_scores_zero_rather_than_erroring() {
    let score = MemoryLedger::new().workflow_score("", "never-run");
    assert_eq!((score.applied, score.helped), (0, 0));
}

#[test]
fn workflow_scores_accumulate() {
    let mut store = MemoryLedger::new();
    store.score_workflow("", "wf-accumulate", true);
    store.score_workflow("", "wf-accumulate", true);
    store.score_workflow("", "wf-accumulate", false);
    let score = store.workflow_score("", "wf-accumulate");
    assert_eq!((score.applied, score.helped), (3, 2));
}

#[test]
fn a_tenants_lesson_is_invisible_to_another() {
    let mut store = MemoryLedger::new();
    let mut mine = lesson("a private class of task");
    mine.claim = "names an internal repository path".into();
    let id = store.promote("user-a", &mine, &vec![]);
    assert!(store.lessons("user-a", None).iter().any(|l| l.id == id));
    assert!(!store.lessons("user-b", None).iter().any(|l| l.id == id));
    assert!(!store.lessons("", None).iter().any(|l| l.id == id));
}

#[test]
fn a_global_lesson_is_visible_to_every_tenant() {
    let mut store = MemoryLedger::new();
    let id = store.promote("", &lesson("a class of task anyone can hit"), &vec![]);
    for tenant in ["user-a", "user-b"] {
        assert!(store.lessons(tenant, None).iter().any(|l| l.id == id));
    }
}

#[test]
fn promote_stamps_the_handle_not_the_argument() {
    let mut store = MemoryLedger::new();
    let mut forged = lesson("a class of task claiming to be someone else's");
    forged.scope_key = Some("some-other-tenant".to_string());
    let id = store.promote("user-a", &forged, &vec![]);
    let stored =
        store.lessons("user-a", None).into_iter().find(|l| l.id == id).expect("stored");
    assert_eq!(stored.scope_key.as_deref(), Some("user-a"));
}

#[test]
fn workflow_scores_do_not_bleed_between_tenants() {
    let mut store = MemoryLedger::new();
    store.score_workflow("user-a", "wf-shared-id", true);
    store.score_workflow("user-a", "wf-shared-id", true);
    store.score_workflow("user-b", "wf-shared-id", false);
    let for_a = store.workflow_score("user-a", "wf-shared-id");
    let for_b = store.workflow_score("user-b", "wf-shared-id");
    assert_eq!((for_a.applied, for_a.helped), (2, 2));
    assert_eq!((for_b.applied, for_b.helped), (1, 0));
}

#[test]
fn a_tenant_writing_does_not_move_the_global_score() {
    let mut store = MemoryLedger::new();
    store.score_workflow("user-a", "wf-tenant-only", true);
    let seen = store.workflow_score("", "wf-tenant-only");
    assert_eq!((seen.applied, seen.helped), (0, 0));
}

#[test]
fn insertion_order_survives_a_timestamp_tie() {
    // Two attempts finishing in the same second is common; ordering by `at`
    // would make the exclusion list arbitrary.
    let mut store = MemoryLedger::new();
    for sig in ["first", "second", "third"] {
        let mut r = row("tie", 1, sig);
        r.at = "2026-01-01T00:00:00Z".to_string();
        store.append(&r);
    }
    assert_eq!(store.tried("tie"), vec!["first", "second", "third"]);
}

#[test]
fn starting_an_episode_twice_does_not_restart_it() {
    // A service that retries a create must not reset a goal four attempts in.
    let mut ledger = MemoryLedger::new();
    let goal = Goal::new("write the weekly report");
    let mut held = Episode {
        id: "ep-1".into(),
        goal: goal.clone(),
        scope_key: None,
        status: EpisodeStatus::Running,
        attempt: 4,
        stalled: 2,
        started_at: "2026-01-01T00:00:00Z".into(),
        updated_at: "2026-01-01T00:00:00Z".into(),
    };
    ledger.save_episode("", &held);

    let seen = ledger.episode("", "ep-1").expect("exists");
    assert_eq!(seen.attempt, 4);
    assert_eq!(seen.stalled, 2);
    let (begun, fresh) = start(Some(seen), "ep-1", &goal, "2026-02-02T00:00:00Z");
    assert!(!fresh);
    assert_eq!(begun.attempt, 4);

    held.attempt = 5;
    ledger.save_episode("", &held);
    assert_eq!(
        ledger.episode("", "ep-1").expect("exists").attempt,
        5,
        "a save updates rather than duplicating"
    );
    assert_eq!(ledger.episodes("", false).len(), 1);
}

#[test]
fn only_running_episodes_are_offered_for_recovery() {
    let mut ledger = MemoryLedger::new();
    for (id, status) in [
        ("ep-live", EpisodeStatus::Running),
        ("ep-done", EpisodeStatus::Satisfied),
        ("ep-gave-up", EpisodeStatus::StoodDown("out of attempts".into())),
    ] {
        ledger.save_episode("", &record(id, status));
    }
    let running = ledger.episodes("", true);
    assert_eq!(running.len(), 1);
    assert_eq!(running[0].id, "ep-live");
    assert_eq!(ledger.episodes("", false).len(), 3);
}

#[test]
fn an_episode_round_trips_its_goal_and_its_reason_for_stopping() {
    // Both are unrecoverable from the rows, which is the whole test for what
    // belongs on the record.
    let mut ledger = MemoryLedger::new();
    let mut goal = Goal::new("write the weekly report");
    goal.success_criteria = "cites the actual figures".into();
    ledger.save_episode(
        "",
        &Episode {
            id: "ep-2".into(),
            goal,
            scope_key: None,
            status: EpisodeStatus::StoodDown("3 attempts in a row made no progress".into()),
            attempt: 7,
            stalled: 3,
            started_at: Frozen.now(),
            updated_at: Frozen.now(),
        },
    );
    let back = ledger.episode("", "ep-2").expect("exists");
    assert_eq!(back.goal.text, "write the weekly report");
    assert_eq!(back.goal.success_criteria, "cites the actual figures");
    assert_eq!(back.stalled, 3);
    match back.status {
        EpisodeStatus::StoodDown(reason) => assert!(reason.contains("no progress")),
        other => panic!("expected a stand-down, got {other:?}"),
    }
}

#[test]
fn one_tenants_episodes_are_invisible_to_another() {
    let mut ledger = MemoryLedger::new();
    ledger.save_episode("user-a", &record("ep-private", EpisodeStatus::Running));
    assert!(ledger.episode("user-a", "ep-private").is_some());
    assert!(
        ledger.episode("user-b", "ep-private").is_none(),
        "an episode carries a goal in the user's own words"
    );
    assert!(ledger.episodes("user-b", false).is_empty());
}

#[test]
fn a_new_episode_begins_by_the_clock() {
    let (begun, fresh) = begin(&Frozen, None, "ep-3", &Goal::new("anything"));
    assert!(fresh);
    assert_eq!(begun.started_at, "2026-01-01T00:00:00Z");
    assert_eq!(begun.updated_at, "2026-01-01T00:00:00Z");
    assert_eq!(begun.status, EpisodeStatus::Running);
    assert_eq!((begun.attempt, begun.stalled), (0, 0));
    assert_eq!(attempt_number(&begun), 1);
}

#[test]
fn an_episode_goes_on_only_after_a_retry() {
    assert_eq!(ending(&Next::Retry), None);
    assert_eq!(ending(&Next::Done), Some(EpisodeStatus::Satisfied));
    assert_eq!(
        ending(&Next::StandDown("why".into())),
        Some(EpisodeStatus::StoodDown("why".into()))
    );
}

#[test]
fn a_finished_episode_counts_the_attempts_of_its_record() {
    let verdict = || Verdict {
        satisfied: true,
        blocker: Blocker::Nothing,
        gap: String::new(),
        attributed_to: String::new(),
        evidence: String::new(),
        advanced: true,
    };
    let mut held = record("ep", EpisodeStatus::Satisfied);
    held.attempt = 9;
    assert_eq!(finish(EpisodeStatus::Satisfied, Some(held), verdict(), vec![]).attempts, 9);
    assert_eq!(finish(EpisodeStatus::Satisfied, None, verdict(), vec![]).attempts, 0);
}

#[test]
fn what_is_done_with_a_graph_depends_on_how_it_came_about() {
    let authored = Approach::Authored { why: String::new(), fingerprint: "f".into() };
    let selected = Approach::Selected { workflow_id: "w".into(), why: String::new() };
    assert_eq!(follow_up(true, &authored, false), FollowUp::Keep);
    assert_eq!(follow_up(false, &authored, true), FollowUp::Nothing);
    assert_eq!(follow_up(false, &selected, true), FollowUp::Repair("w".into()));
    assert_eq!(follow_up(false, &selected, false), FollowUp::Nothing);
    assert_eq!(follow_up(true, &selected, true), FollowUp::Nothing);
}

#[test]
fn kinds_have_names_that_read_back() {
    for kind in [
        LessonKind::Strategy,
        LessonKind::Constraint,
        LessonKind::FailureMode,
        LessonKind::Calibration,
    ] {
        assert_eq!(LessonKind::parse(kind_str(kind)), kind);
    }
    assert_eq!(LessonKind::parse("  Constraint "), LessonKind::Constraint);
    assert_eq!(LessonKind::parse("who knows"), LessonKind::Strategy);
}

#[test]
fn ids_are_padded_and_counters_do_not_wrap() {
    assert_eq!(new_id("ldg", 7), "ldg_00000007");
    assert_eq!(new_id("ldg", 123456789), "ldg_123456789");
    assert_eq!(count_up(1), 2);
    assert_eq!(count_up(u32::MAX), u32::MAX);
}

#[test]
fn stored_numbers_are_read_within_their_range() {
    assert_eq!(stored_count(-1), 0);
    assert_eq!(stored_count(7), 7);
    assert_eq!(as_u32(Some(5), None), 5);
    assert_eq!(as_u32(None, Some(6)), 6);
    assert_eq!(as_u32(None, None), 0);
    assert_eq!(bucket(None), "");
    assert_eq!(bucket(Some("user-a")), "user-a");
    assert_eq!(as_u32(Some(-1), Some(3)), 3);
    assert_eq!(stored_count(i64::MAX), 0);
    assert_eq!(next_seq(None), 1);
    assert_eq!(next_seq(Some(4)), 5);
}

#[test]
fn each_ledger_error_says_what_failed() {
    assert_eq!(LedgerError::Backend("down".into()).message(), "ledger backend: down");
    assert_eq!(
        LedgerError::Corrupt("row 3".into()).message(),
        "ledger holds a row it cannot read: row 3"
    );
}
