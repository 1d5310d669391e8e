//! What a run leaves behind, and what crosses to whoever judges it.
use tinyflows::adaptive::execute::wire::{
    ExecutionStep, RunReport, StepOutcome, StepRecord, StepStatus, PROMPT_BUDGET, RECORD_BUDGET,
};
use tinyflows::adaptive::execute::{conclude, errored, Ran, RunOutcome, Unobserved, Workspace};
use tinyflows::evidence::{bounded_within, fits, is_truncated};
use tinyflows::json::Json;
use tinyflows::json_text::parse;
use tinyflows::nodes::NullResolution;

fn json(text: &str) -> Json {
    parse(text).expect("valid JSON")
}

fn body_of(bytes: usize) -> Json {
    Json::Object(vec![("body".to_string(), Json::String("x".repeat(bytes)))])
}

fn step(node_id: &str, status: StepStatus, output: Json) -> ExecutionStep {
    ExecutionStep {
        node_id: node_id.into(),
        status,
        output,
        duration_ms: 12,
        diagnostics: Vec::new(),
    }
}

struct Git(&'static str);

impl Workspace for Git {
    fn mark(&self) -> String {
        "abc123".into()
    }

    fn changed_since(&self, mark: &str) -> String {
        format!("{} since {mark}", self.0)
    }
}

#[test]
fn a_host_that_cannot_say_reports_nothing_rather_than_guessing() {
    let quiet = Unobserved;
    assert!(quiet.mark().is_empty());
    assert!(quiet.changed_since("").is_empty());
}

#[test]
fn the_baseline_is_passed_back_to_the_comparison() {
    // The mark taken before the run has to reach the reading taken after it.
    let git = Git("1 file changed");
    let mark = git.mark();
    assert_eq!(git.changed_since(&mark), "1 file changed since abc123");
}

#[test]
fn a_failure_is_readable_as_evidence_not_as_an_absence() {
    let ran = Ran {
        outcome: errored("node 'fetch' timed out"),
        diagnosis: Json::Null,
        changed: String::new(),
        failed: Some("node 'fetch' timed out".into()),
        steps: Vec::new(),
    };
    let evidence = ran.evidence();
    assert_eq!(evidence.outcome.output.text_at("error"), Some("node 'fetch' timed out"));
    // No `nodes` key: what the mechanical missing-evidence check reads.
    assert!(evidence.outcome.output.get("nodes").is_none());
}

#[test]
fn a_graph_that_does_not_compile_is_an_attempt_not_an_error() {
    let ran = conclude(Err("no trigger".to_string()), Json::Null, String::new(), Vec::new());
    let failure = ran.failed.clone().expect("it did not compile");
    assert!(!failure.is_empty());
    assert_eq!(ran.outcome.output.text_at("error"), Some(failure.as_str()));
    assert!(ran.outcome.output.get("nodes").is_none());
}

#[test]
fn a_silent_host_is_silent_rather_than_wrong() {
    let outcome = RunOutcome {
        output: json(r#"{"nodes": {}}"#),
        pending_approvals: Vec::new(),
        cancelled: false,
    };
    let ran = conclude(Ok(outcome), Json::Null, Unobserved.changed_since(""), Vec::new());
    assert!(ran.changed.is_empty());
    assert!(ran.failed.is_none());
    assert!(ran.evidence().changed.is_empty());
}

#[test]
fn the_evidence_borrows_what_ran_owns() {
    let ran = conclude(Err("boom".to_string()), json("{}"), "x".to_string(), Vec::new());
    let evidence = ran.evidence();
    assert!(std::ptr::eq(evidence.outcome, &ran.outcome));
    assert!(std::ptr::eq(evidence.diagnosis, &ran.diagnosis));
}

#[test]
fn one_fat_node_does_not_take_the_rest_of_the_record_with_it() {
    // Bounding is per node: applied to the aggregate, the big one would replace
    // every other node's output with a preview.
    let report = RunReport {
        steps: vec![
            StepRecord::bounded(
                &step("small", StepStatus::Success, json(r#"{"ok": 1}"#)),
                RECORD_BUDGET,
            ),
            StepRecord::bounded(
                &step("huge", StepStatus::Success, body_of(600 * 1024)),
                RECORD_BUDGET,
            ),
        ],
        ..RunReport::default()
    };
    assert!(!is_truncated(&report.steps[0].output), "the small node is intact");
    assert!(is_truncated(&report.steps[1].output), "the big one is trimmed");
    assert_eq!(report.steps[0].output, json(r#"{"ok": 1}"#));
}

#[test]
fn a_swallowed_error_survives_the_round_trip() {
    // `output` alone cannot express this, which is why steps cross.
    let record = StepRecord::bounded(
        &step("fetch", StepStatus::Error, json(r#"{"error": "connection refused"}"#)),
        RECORD_BUDGET,
    );
    assert_eq!(record.status, StepOutcome::Error);
    assert!(matches!(record.to_step().status, StepStatus::Error));
}

#[test]
fn every_iteration_of_a_looped_node_is_kept() {
    let report = RunReport {
        steps: vec![
            StepRecord::bounded(
                &step("body", StepStatus::Success, json(r#"{"i": 1}"#)),
                RECORD_BUDGET,
            ),
            StepRecord::bounded(
                &step("body", StepStatus::Success, json(r#"{"i": 2}"#)),
                RECORD_BUDGET,
            ),
            StepRecord::bounded(
                &step("body", StepStatus::Success, json(r#"{"i": 3}"#)),
                RECORD_BUDGET,
            ),
        ],
        ..RunReport::default()
    };
    assert_eq!(report.steps.len(), 3);

    // The reconstructed final state keeps only the last; the history lives on
    // `steps`.
    let ran = report.into_ran(Json::Null);
    assert_eq!(ran.outcome.output.at("nodes").at("body"), json(r#"{"i": 3}"#));
    assert_eq!(ran.steps.len(), 3);
}

#[test]
fn the_judges_view_is_bounded_tighter_than_the_record() {
    let report = RunReport {
        steps: vec![StepRecord::bounded(
            &step("agent", StepStatus::Success, body_of(64 * 1024)),
            RECORD_BUDGET,
        )],
        ..RunReport::default()
    };
    // Well under the record budget, so kept whole there...
    assert!(!is_truncated(&report.steps[0].output));

    let ran = report.into_ran(Json::Null);
    // ...and trimmed in the projection the model reads.
    assert!(is_truncated(&ran.outcome.output.at("nodes").at("agent")));
    assert!(!is_truncated(&ran.steps[0].output), "the record is untouched");
}

#[test]
fn a_failed_run_still_carries_every_step_it_managed() {
    let report = RunReport {
        steps: (0..11)
            .map(|i| {
                StepRecord::bounded(
                    &step("loop", StepStatus::Success, json(&format!("{{\"i\": {i}}}"))),
                    RECORD_BUDGET,
                )
            })
            .collect(),
        failed: Some("loop node exceeded its maximum of 5 iterations".into()),
        ..RunReport::default()
    };
    let ran = report.into_ran(Json::Null);
    assert_eq!(ran.steps.len(), 11);
    assert_eq!(
        ran.outcome.output.text_at("error"),
        Some("loop node exceeded its maximum of 5 iterations")
    );
    // And the nodes are there too, so the judge sees what did happen rather
    // than only that something broke.
    assert!(ran.outcome.output.at("nodes").at("loop").as_object().is_some());
}

#[test]
fn a_step_is_rebuilt_as_it_crossed() {
    let mut original = step("fetch", StepStatus::Success, json(r#"[1, 2]"#));
    original.diagnostics.push(NullResolution {
        location: "url".into(),
        expression: "=item.url".into(),
    });
    let record = StepRecord::bounded(&original, RECORD_BUDGET);
    assert_eq!(record.to_step(), original);
}

#[test]
fn a_preview_stands_for_what_does_not_fit() {
    let small = json(r#"{"a": "b"}"#);
    assert_eq!(bounded_within(&small, PROMPT_BUDGET), small);
    assert!(fits("abcd", 4));
    assert!(!fits("abcd", 3));
    assert!(!fits("é", 1));
    let cut = bounded_within(&body_of(100), 20);
    assert!(is_truncated(&cut));
    assert_eq!(cut.at("truncated").as_bool(), Some(true));
    assert_eq!(cut.text_at("preview"), Some("{\"body\":\"xxxxxxxxxxx"));
}
