//! What a node may name as the directory it runs in. The paths handed in as
//! resolved are what a disk would answer.
use tinyflows::json::Json;
use tinyflows::json_text::parse;
use tinyflows::nodes::EngineError;
use tinyflows::workdir::{
    check_shape, is_inside, resolve_dir_in_workspace, resolve_in_workspace, resolve_node_dir,
    run_workspace, target_path, Absolute,
};

fn json(text: &str) -> Json {
    parse(text).expect("valid JSON")
}

const ROOT: &str = "/tmp/ws";

fn at(path: &str) -> Result<String, String> {
    Ok(path.to_string())
}

fn missing() -> Result<String, String> {
    Err("No such file or directory (os error 2)".to_string())
}

#[test]
fn a_relative_directory_resolves_against_the_workspace() {
    assert_eq!(target_path(ROOT, "worktrees/issue-1"), "/tmp/ws/worktrees/issue-1");
    let resolved = resolve_dir_in_workspace(
        ROOT,
        "worktrees/issue-1",
        "config.cwd",
        Absolute::AllowInside,
        at("/private/tmp/ws"),
        at("/private/tmp/ws/worktrees/issue-1"),
        true,
    )
    .expect("a directory in the workspace resolves");
    assert_eq!(resolved, "/private/tmp/ws/worktrees/issue-1");
}

#[test]
fn an_absolute_directory_inside_the_workspace_is_allowed() {
    // An earlier node reports the worktree it created as an absolute path, and
    // the next node binds `cwd` straight to it.
    let inside = "/private/tmp/ws/worktrees/issue-1";
    let resolved = resolve_dir_in_workspace(
        ROOT,
        inside,
        "config.cwd",
        Absolute::AllowInside,
        at("/private/tmp/ws"),
        at(inside),
        true,
    )
    .expect("an absolute path inside the workspace resolves");
    assert_eq!(resolved, inside);
}

#[test]
fn an_absolute_directory_is_refused_where_the_rule_is_stricter() {
    let inside = "/private/tmp/ws/worktrees/issue-1";
    let error = resolve_in_workspace(
        ROOT,
        inside,
        "args.cwd",
        Absolute::Refuse,
        at("/private/tmp/ws"),
        at(inside),
    )
    .expect_err("Absolute::Refuse takes no absolute path, inside or not");
    assert!(error.contains("must be relative to the workspace"), "{error}");
}

#[test]
fn a_directory_outside_the_workspace_is_refused() {
    let error = resolve_dir_in_workspace(
        ROOT,
        "/tmp/elsewhere",
        "config.cwd",
        Absolute::AllowInside,
        at(ROOT),
        at("/tmp/elsewhere"),
        true,
    )
    .expect_err("an absolute path outside the workspace is refused");
    assert!(error.contains("resolves outside the workspace"), "{error}");
}

#[test]
fn a_relative_directory_may_not_traverse_out_of_the_workspace() {
    let error = resolve_dir_in_workspace(
        ROOT,
        "../elsewhere",
        "config.cwd",
        Absolute::AllowInside,
        at(ROOT),
        at("/tmp/elsewhere"),
        true,
    )
    .expect_err("`..` is refused before the disk is touched");
    assert!(error.contains("must not traverse outside"), "{error}");
    assert!(check_shape("../elsewhere", "config.cwd", Absolute::AllowInside).is_err());
}

#[test]
fn a_directory_that_does_not_exist_fails_naming_the_path() {
    let error = resolve_dir_in_workspace(
        ROOT,
        "worktrees/issue-404",
        "config.cwd",
        Absolute::AllowInside,
        at(ROOT),
        missing(),
        false,
    )
    .expect_err("a missing directory fails rather than falling back to the workspace");
    assert!(error.contains("worktrees/issue-404"), "{error}");
    assert!(error.contains("does not resolve inside the workspace"), "{error}");
}

#[test]
fn a_path_that_is_not_a_directory_is_refused() {
    let error = resolve_dir_in_workspace(
        ROOT,
        "notes.txt",
        "config.cwd",
        Absolute::AllowInside,
        at(ROOT),
        at("/tmp/ws/notes.txt"),
        false,
    )
    .expect_err("a file is not a working directory");
    assert!(error.contains("is not a directory"), "{error}");
}

#[test]
fn a_symlink_inside_the_workspace_pointing_out_of_it_is_refused() {
    // The half no amount of string inspection would have caught.
    let error = resolve_dir_in_workspace(
        ROOT,
        "escape",
        "config.cwd",
        Absolute::AllowInside,
        at(ROOT),
        at("/tmp/elsewhere"),
        true,
    )
    .expect_err("the symlink target is outside the workspace");
    assert!(error.contains("resolves outside the workspace"), "{error}");
}

#[test]
fn the_run_workspace_comes_from_the_run_slice_then_the_trigger() {
    assert_eq!(
        run_workspace(&json(r#"{ "workspace": "/srv/checkout" }"#)).as_deref(),
        Some("/srv/checkout")
    );
    assert_eq!(
        run_workspace(&json(r#"{ "trigger": { "workspace": "/srv/from-trigger" } }"#)).as_deref(),
        Some("/srv/from-trigger"),
        "a host may pin a workspace per run without editing the graph"
    );
    assert_eq!(
        run_workspace(&json(
            r#"{ "workspace": "/srv/seeded", "trigger": { "workspace": "/srv/from-trigger" } }"#
        ))
        .as_deref(),
        Some("/srv/seeded"),
        "the seeded run workspace wins"
    );
    assert_eq!(run_workspace(&json(r#"{ "workspace": "  " }"#)), None);
    assert_eq!(run_workspace(&json("{}")), None);
}

#[test]
fn a_run_with_no_workspace_passes_the_directory_through() {
    // A harness whose agents run in a remote sandbox names directories this
    // process has never heard of.
    let resolved = resolve_node_dir(
        &json("{}"),
        "/srv/checkout",
        "config.cwd",
        "agent node a",
        missing(),
        missing(),
        false,
    )
    .expect("no workspace, no resolution");
    assert_eq!(resolved, "/srv/checkout");
}

#[test]
fn a_resolved_directory_is_reported_with_the_node_surface() {
    let EngineError::Capability(error) = resolve_node_dir(
        &json(r#"{ "workspace": "/tmp/ws" }"#),
        "nope",
        "config.cwd",
        "agent node prepare",
        at(ROOT),
        missing(),
        false,
    )
    .expect_err("a missing directory fails the step");
    assert!(error.starts_with("agent node prepare:"), "{error}");
}

#[test]
fn a_path_lies_inside_by_its_names_and_not_by_its_text() {
    assert!(is_inside("/tmp/ws/a", "/tmp/ws"));
    assert!(is_inside("/tmp/ws", "/tmp/ws"));
    assert!(is_inside("/tmp//ws/./a", "/tmp/ws/"));
    assert!(!is_inside("/tmp/wsx", "/tmp/ws"));
    assert!(!is_inside("/tmp", "/tmp/ws"));
    assert!(!is_inside("tmp/ws/a", "/tmp/ws"));
}

#[test]
fn a_workspace_that_is_gone_fails_before_its_path_is_looked_at() {
    let error = resolve_in_workspace(
        ROOT,
        "a",
        "config.cwd",
        Absolute::AllowInside,
        missing(),
        at("/tmp/ws/a"),
    )
    .expect_err("no workspace on the disk");
    assert!(error.contains("workspace"), "{error}");
}
