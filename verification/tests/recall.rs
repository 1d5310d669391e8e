//! What a planner is shown of the past.
use tinyflows::adaptive::ledger::{LedgerRow, Lesson, LessonKind};
use tinyflows::adaptive::recall::{comes_before, render_history, render_lessons, retrieve};

fn lesson(id: &str, kind: LessonKind, applied: u32, helped: u32) -> Lesson {
    Lesson {
        id: id.into(),
        kind,
        trigger: format!("the {id} situation"),
        mechanism: String::new(),
        claim: format!("do {id}"),
        applied,
        helped,
        scope_key: None,
    }
}

fn row(attempt: u32, sig: &str, cause: &str) -> LedgerRow {
    LedgerRow {
        id: format!("r{attempt}"),
        episode: "ep".into(),
        attempt,
        approach_sig: sig.into(),
        approach_desc: "tried the obvious thing".into(),
        workflow_id: None,
        outcome: "fell short".into(),
        cause: cause.into(),
        at: "2026-01-01T00:00:00Z".into(),
        satisfied: false,
        advanced: false,
    }
}

#[test]
fn the_best_helping_lessons_come_first() {
    let got = retrieve(
        vec![
            lesson("weak", LessonKind::Strategy, 10, 1),
            lesson("strong", LessonKind::Strategy, 10, 9),
        ],
        None,
        5,
    );
    assert_eq!(got[0].id, "strong");
}

#[test]
fn the_order_is_stable_when_two_lessons_are_equally_good() {
    // A planner shown a different five each attempt cannot be reasoned about.
    let pool = vec![
        lesson("b", LessonKind::Strategy, 4, 2),
        lesson("a", LessonKind::Strategy, 4, 2),
    ];
    let once = retrieve(pool.clone(), None, 5);
    let twice = retrieve(pool, None, 5);
    assert_eq!(once[0].id, "a");
    assert_eq!(
        once.iter().map(|l| &l.id).collect::<Vec<_>>(),
        twice.iter().map(|l| &l.id).collect::<Vec<_>>()
    );
}

#[test]
fn constraints_load_wholesale_past_the_cap() {
    // Dropping a constraint because five strategies outranked it means
    // proposing something already known to be impossible.
    let mut pool: Vec<Lesson> =
        (0..8).map(|n| lesson(&format!("s{n}"), LessonKind::Strategy, 10, 10)).collect();
    pool.push(lesson("hard-limit", LessonKind::Constraint, 0, 0));

    let got = retrieve(pool, None, 2);
    assert!(got.iter().any(|l| l.id == "hard-limit"), "{got:?}");
    assert_eq!(got.len(), 3, "the constraint plus the two-strategy cap");
}

#[test]
fn nothing_learned_yet_renders_to_nothing_rather_than_an_empty_heading() {
    assert!(render_lessons(&[]).is_empty());
    assert!(render_history(&[]).is_empty());
}

#[test]
fn the_history_names_the_signature_the_exclusion_list_uses() {
    let rendered = render_history(&[row(1, "selected:weekly", "no numbers in it")]);
    assert!(rendered.contains("[selected:weekly]"), "{rendered}");
    assert!(rendered.contains("do not propose any of these again"));
    assert!(rendered.contains("still missing: no numbers in it"));
}

#[test]
fn a_row_with_no_stated_cause_says_nothing_rather_than_an_empty_line() {
    let rendered = render_history(&[row(2, "authored:abc", "")]);
    assert!(!rendered.contains("still missing"), "{rendered}");
}

#[test]
fn an_unapplied_lesson_says_so_rather_than_showing_zero_of_zero() {
    let rendered = render_lessons(&[lesson("new", LessonKind::Strategy, 0, 0)]);
    assert!(rendered.contains("not yet applied"), "{rendered}");
}

#[test]
fn a_kind_filters_what_is_recalled() {
    let pool = vec![
        lesson("s", LessonKind::Strategy, 1, 1),
        lesson("f", LessonKind::FailureMode, 1, 1),
        lesson("c", LessonKind::Constraint, 1, 1),
    ];
    let got = retrieve(pool, Some(LessonKind::FailureMode), 5);
    assert_eq!(got.iter().map(|l| l.id.as_str()).collect::<Vec<_>>(), vec!["f"]);
}

#[test]
fn equally_helpful_lessons_come_by_id() {
    let pool = vec![
        lesson("b", LessonKind::Strategy, 2, 1),
        lesson("c", LessonKind::Strategy, 4, 2),
        lesson("a", LessonKind::Strategy, 2, 1),
    ];
    let got = retrieve(pool, None, 5);
    assert_eq!(got.iter().map(|l| l.id.as_str()).collect::<Vec<_>>(), vec!["a", "b", "c"]);
}

#[test]
fn ids_are_ordered_as_text() {
    assert!(comes_before("a", "b"));
    assert!(comes_before("a", "aa"));
    assert!(!comes_before("b", "aa"));
    assert!(!comes_before("a", "a"));
}

#[test]
fn what_is_recalled_does_not_depend_on_the_order_of_the_lessons() {
    let pool = vec![
        lesson("c", LessonKind::Strategy, 4, 2),
        lesson("must", LessonKind::Constraint, 1, 0),
        lesson("a", LessonKind::Strategy, 4, 2),
        lesson("best", LessonKind::Strategy, 2, 2),
    ];
    let forwards = retrieve(pool.clone(), None, 2);
    let mut reversed = pool;
    reversed.reverse();
    assert_eq!(forwards, retrieve(reversed, None, 2));
    let ids: Vec<&str> = forwards.iter().map(|l| l.id.as_str()).collect();
    assert_eq!(ids, ["must", "best", "a"]);
}
