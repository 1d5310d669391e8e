//! Where a node may run: an author's working directory, held to the run's
//! workspace.
//!
//! A directory that a graph names is not trusted. Its shape is checked first;
//! then it and the workspace are resolved on the host's disk, which follows
//! links; and what comes out has to lie inside the workspace. Paths are
//! written with `/`.
use vstd::prelude::*;

use crate::json::{Json, JsonView};
use crate::nodes::{EngineError, EngineErrorView};
use crate::text::{chars_of, cut, cut_at, opt_view, same, trim, trimmed, views};

verus! {

/// Whether an author may name an absolute path.
#[derive(Debug, Clone, Copy, PartialEq, Eq, Structural)]
pub enum Absolute {
    /// No: a path is relative to the workspace.
    Refuse,
    /// Yes, where it resolves inside the workspace.
    AllowInside,
}

/// The workspace a run states: its own, and else its trigger's.
pub open spec fn stated_workspace(run: JsonView) -> Option<Seq<char>> {
    match run.text_at("workspace"@) {
        Some(text) => Some(text),
        None => run.at("trigger"@).text_at("workspace"@),
    }
}

/// The workspace a run is pinned to; one that is blank is none.
pub open spec fn workspace_of(run: JsonView) -> Option<Seq<char>> {
    match stated_workspace(run) {
        Some(text) => if trimmed(text).len() > 0 {
            Some(trimmed(text))
        } else {
            None
        },
        None => None,
    }
}

/// The workspace a run is pinned to.
pub fn run_workspace(run: &Json) -> (r: Option<String>)
    ensures
        opt_view(r) == workspace_of(run@),
{
    let stated = match run.text_copy("workspace") {
        Some(text) => Some(text),
        None => {
            let trigger = run.at("trigger");
            trigger.text_copy("workspace")
        },
    };
    match stated {
        Some(text) => {
            let bare = trim(text.as_str());
            if bare.as_str().is_empty() {
                None
            } else {
                Some(bare)
            }
        },
        None => None,
    }
}

/// A path that begins at the root.
pub open spec fn is_absolute(path: Seq<char>) -> bool {
    path.len() > 0 && path[0] == '/'
}

/// The names a path goes through; empty ones and `.` say nothing.
pub open spec fn names_of(parts: Seq<Seq<char>>) -> Seq<Seq<char>>
    decreases parts.len(),
{
    if parts.len() == 0 {
        Seq::empty()
    } else {
        let rest = names_of(parts.drop_last());
        if parts.last().len() == 0 || parts.last() == "."@ {
            rest
        } else {
            rest.push(parts.last())
        }
    }
}

/// The names a path goes through.
pub open spec fn path_names(path: Seq<char>) -> Seq<Seq<char>> {
    names_of(cut(path, '/'))
}

/// A relative path that goes upwards somewhere.
pub open spec fn traverses(path: Seq<char>) -> bool {
    !is_absolute(path) && path_names(path).contains(".."@)
}

/// A path lies inside another: both begin at the root or neither does, and the
/// other's names come first.
pub open spec fn lies_inside(path: Seq<char>, base: Seq<char>) -> bool {
    is_absolute(path) == is_absolute(base) && path_names(base).is_prefix_of(path_names(path))
}

/// A path put under a base, where it is relative.
pub open spec fn joined(base: Seq<char>, path: Seq<char>) -> Seq<char> {
    if is_absolute(path) {
        path
    } else if base.len() == 0 || base.last() == '/' {
        base + path
    } else {
        base + "/"@ + path
    }
}

fn absolute_path(path: &str) -> (r: bool)
    ensures
        r == is_absolute(path@),
{
    let chars = chars_of(path);
    chars.len() > 0 && chars[0] == '/'
}

fn names(path: &str) -> (r: Vec<String>)
    ensures
        views(r@) == path_names(path@),
{
    let parts = cut_at(path, '/');
    let ghost all = views(parts@);
    let mut found: Vec<String> = Vec::new();
    let mut i: usize = 0;
    assert(views(found@) =~= names_of(all.take(0)));
    while i < parts.len()
        invariant
            i <= parts@.len(),
            all == views(parts@),
            views(found@) == names_of(all.take(i as int)),
        decreases parts@.len() - i,
    {
        assert(all.take(i + 1).drop_last() =~= all.take(i as int));
        assert(all.take(i + 1).last() == parts@[i as int]@);
        let ghost before = views(found@);
        let empty = parts[i].as_str().is_empty();
        if !(empty || same(parts[i].as_str(), ".")) {
            found.push(parts[i].clone());
            assert(views(found@) =~= before.push(parts@[i as int]@));
        }
        i = i + 1;
    }
    assert(all.take(all.len() as int) =~= all);
    found
}

/// Whether a path lies inside another.
pub fn is_inside(path: &str, base: &str) -> (r: bool)
    ensures
        r == lies_inside(path@, base@),
{
    if absolute_path(path) != absolute_path(base) {
        return false;
    }
    let inner = names(path);
    let outer = names(base);
    let ghost deep = path_names(path@);
    let ghost front = path_names(base@);
    if outer.len() > inner.len() {
        return false;
    }
    let mut i: usize = 0;
    while i < outer.len()
        invariant
            i <= outer@.len() <= inner@.len(),
            deep == views(inner@),
            front == views(outer@),
            deep == path_names(path@),
            front == path_names(base@),
            is_absolute(path@) == is_absolute(base@),
            forall|k: int| 0 <= k < i ==> front[k] == deep[k],
        decreases outer@.len() - i,
    {
        assert(deep[i as int] == inner@[i as int]@);
        assert(front[i as int] == outer@[i as int]@);
        if !same(outer[i].as_str(), inner[i].as_str()) {
            assert(deep.take(front.len() as int)[i as int] != front[i as int]);
            return false;
        }
        i = i + 1;
    }
    assert(deep.take(front.len() as int) =~= front);
    true
}

/// Where a path has to be looked for: itself where it is absolute, and else
/// under the workspace.
pub fn target_path(workspace: &str, raw: &str) -> (r: String)
    ensures
        r@ == joined(workspace@, raw@),
{
    if absolute_path(raw) {
        return raw.to_owned();
    }
    let chars = chars_of(workspace);
    let mut path = workspace.to_owned();
    if chars.len() > 0 && chars[chars.len() - 1] != '/' {
        path.append("/");
    }
    path.append(raw);
    assert(path@ =~= joined(workspace@, raw@));
    path
}

/// `` `field` ('raw')``, which every refusal begins with.
pub open spec fn about(field: Seq<char>, raw: Seq<char>) -> Seq<char> {
    "`"@ + field + "` ('"@ + raw + "')"@
}

fn about_text(field: &str, raw: &str) -> (r: String)
    ensures
        r@ == about(field@, raw@),
{
    let mut text = "`".to_owned();
    text.append(field);
    text.append("` ('");
    text.append(raw);
    text.append("')");
    text
}

/// Why the shape of a path is refused: it is absolute where that is not
/// allowed, or it goes upwards.
pub open spec fn shape_refusal(
    raw: Seq<char>,
    field: Seq<char>,
    absolute: Absolute,
) -> Option<Seq<char>> {
    if is_absolute(raw) {
        if absolute == Absolute::Refuse {
            Some(about(field, raw) + " must be relative to the workspace, not absolute"@)
        } else {
            None
        }
    } else if traverses(raw) {
        Some(about(field, raw) + " must not traverse outside the workspace"@)
    } else {
        None
    }
}

fn holds_parent(names: &Vec<String>) -> (r: bool)
    ensures
        r == views(names@).contains(".."@),
{
    let mut i: usize = 0;
    while i < names.len()
        invariant
            i <= names@.len(),
            forall|k: int| 0 <= k < i ==> views(names@)[k] != ".."@,
        decreases names@.len() - i,
    {
        assert(views(names@)[i as int] == names@[i as int]@);
        if same(names[i].as_str(), "..") {
            return true;
        }
        i = i + 1;
    }
    false
}

/// Checks the shape of a path, before the disk is touched.
pub fn check_shape(raw: &str, field: &str, absolute: Absolute) -> (r: Result<(), String>)
    ensures
        match shape_refusal(raw@, field@, absolute) {
            Some(text) => r matches Err(message) && message@ == text,
            None => r is Ok,
        },
{
    if absolute_path(raw) {
        if absolute == Absolute::Refuse {
            let mut text = about_text(field, raw);
            text.append(" must be relative to the workspace, not absolute");
            return Err(text);
        }
        return Ok(());
    }
    let through = names(raw);
    if holds_parent(&through) {
        let mut text = about_text(field, raw);
        text.append(" must not traverse outside the workspace");
        return Err(text);
    }
    Ok(())
}

/// What a path resolves to: `base` is where the host found the workspace, and
/// `target` where it found the path under it; each may be the host's error.
pub open spec fn resolved_path(
    workspace: Seq<char>,
    raw: Seq<char>,
    field: Seq<char>,
    absolute: Absolute,
    base: Result<Seq<char>, Seq<char>>,
    target: Result<Seq<char>, Seq<char>>,
) -> Result<Seq<char>, Seq<char>> {
    match shape_refusal(raw, field, absolute) {
        Some(text) => Err(text),
        None => match base {
            Err(error) => Err(
                "the configured workspace ("@ + workspace + ") is unreadable: "@ + error,
            ),
            Ok(root) => match target {
                Err(error) => Err(
                    about(field, raw) + " does not resolve inside the workspace ("@ + joined(
                        root,
                        raw,
                    ) + "): "@ + error,
                ),
                Ok(path) => if lies_inside(path, root) {
                    Ok(path)
                } else {
                    Err(
                        about(field, raw) + " resolves outside the workspace ("@ + root + ")"@,
                    )
                },
            },
        },
    }
}

/// The value of a text or an error.
pub open spec fn text_view(result: Result<String, String>) -> Result<Seq<char>, Seq<char>> {
    match result {
        Ok(text) => Ok(text@),
        Err(error) => Err(error@),
    }
}

/// Resolves a path against a workspace, refusing whatever escapes it. `base`
/// is the workspace as the host resolved it, and `target` the path, resolved
/// at [`target_path`].
pub fn resolve_in_workspace(
    workspace: &str,
    raw: &str,
    field: &str,
    absolute: Absolute,
    base: Result<String, String>,
    target: Result<String, String>,
) -> (r: Result<String, String>)
    ensures
        text_view(r) == resolved_path(
            workspace@,
            raw@,
            field@,
            absolute,
            text_view(base),
            text_view(target),
        ),
{
    match check_shape(raw, field, absolute) {
        Ok(()) => {},
        Err(text) => {
            return Err(text);
        },
    }
    let root = match base {
        Ok(root) => root,
        Err(error) => {
            let mut text = "the configured workspace (".to_owned();
            text.append(workspace);
            text.append(") is unreadable: ");
            text.append(error.as_str());
            return Err(text);
        },
    };
    match target {
        Ok(path) => {
            if is_inside(path.as_str(), root.as_str()) {
                return Ok(path);
            }
            let mut text = about_text(field, raw);
            text.append(" resolves outside the workspace (");
            text.append(root.as_str());
            text.append(")");
            Err(text)
        },
        Err(error) => {
            let tried = target_path(root.as_str(), raw);
            let mut text = about_text(field, raw);
            text.append(" does not resolve inside the workspace (");
            text.append(tried.as_str());
            text.append("): ");
            text.append(error.as_str());
            Err(text)
        },
    }
}

/// What a directory resolves to: as a path does, where it is a directory.
pub open spec fn resolved_dir(
    path: Result<Seq<char>, Seq<char>>,
    raw: Seq<char>,
    field: Seq<char>,
    is_dir: bool,
) -> Result<Seq<char>, Seq<char>> {
    match path {
        Ok(found) => if is_dir {
            Ok(found)
        } else {
            Err(about(field, raw) + " is not a directory in the workspace"@)
        },
        Err(text) => Err(text),
    }
}

/// Resolves a directory against a workspace: as [`resolve_in_workspace`] does,
/// and `is_dir` says whether the host found a directory there.
pub fn resolve_dir_in_workspace(
    workspace: &str,
    raw: &str,
    field: &str,
    absolute: Absolute,
    base: Result<String, String>,
    target: Result<String, String>,
    is_dir: bool,
) -> (r: Result<String, String>)
    ensures
        text_view(r) == resolved_dir(
            resolved_path(
                workspace@,
                raw@,
                field@,
                absolute,
                text_view(base),
                text_view(target),
            ),
            raw@,
            field@,
            is_dir,
        ),
{
    match resolve_in_workspace(workspace, raw, field, absolute, base, target) {
        Ok(found) => {
            if is_dir {
                return Ok(found);
            }
            let mut text = about_text(field, raw);
            text.append(" is not a directory in the workspace");
            Err(text)
        },
        Err(text) => Err(text),
    }
}

/// What a node's directory comes to: unchanged where the run is pinned to no
/// workspace, and else what it resolves to.
pub open spec fn node_dir(
    run: JsonView,
    raw: Seq<char>,
    field: Seq<char>,
    surface: Seq<char>,
    base: Result<Seq<char>, Seq<char>>,
    target: Result<Seq<char>, Seq<char>>,
    is_dir: bool,
) -> Result<Seq<char>, EngineErrorView> {
    match workspace_of(run) {
        None => Ok(raw),
        Some(workspace) => match resolved_dir(
            resolved_path(workspace, raw, field, Absolute::AllowInside, base, target),
            raw,
            field,
            is_dir,
        ) {
            Ok(path) => Ok(path),
            Err(text) => Err(EngineErrorView::Capability(surface + ": "@ + text)),
        },
    }
}

/// Settles the directory a node names.
pub fn resolve_node_dir(
    run: &Json,
    raw: &str,
    field: &str,
    surface: &str,
    base: Result<String, String>,
    target: Result<String, String>,
    is_dir: bool,
) -> (r: Result<String, EngineError>)
    ensures
        (match r {
            Ok(path) => Ok(path@),
            Err(error) => Err(error@),
        }) == node_dir(
            run@,
            raw@,
            field@,
            surface@,
            text_view(base),
            text_view(target),
            is_dir,
        ),
{
    let workspace = match run_workspace(run) {
        Some(workspace) => workspace,
        None => {
            return Ok(raw.to_owned());
        },
    };
    match resolve_dir_in_workspace(
        workspace.as_str(),
        raw,
        field,
        Absolute::AllowInside,
        base,
        target,
        is_dir,
    ) {
        Ok(path) => Ok(path),
        Err(text) => {
            let mut message = surface.to_owned();
            message.append(": ");
            message.append(text.as_str());
            Err(EngineError::Capability(message))
        },
    }
}

/// Whatever is resolved lies inside the workspace, wherever links led.
pub proof fn resolved_paths_stay_inside(
    workspace: Seq<char>,
    raw: Seq<char>,
    field: Seq<char>,
    absolute: Absolute,
    base: Result<Seq<char>, Seq<char>>,
    target: Result<Seq<char>, Seq<char>>,
)
    ensures
        resolved_path(workspace, raw, field, absolute, base, target) matches Ok(path) ==> base
            matches Ok(root) && lies_inside(path, root),
{
}

/// A path that goes upwards is refused whatever the disk says, and so is an
/// absolute one where only relative ones are allowed.
pub proof fn escaping_shapes_are_refused(
    workspace: Seq<char>,
    raw: Seq<char>,
    field: Seq<char>,
    absolute: Absolute,
    base: Result<Seq<char>, Seq<char>>,
    target: Result<Seq<char>, Seq<char>>,
)
    requires
        traverses(raw) || (is_absolute(raw) && absolute == Absolute::Refuse),
    ensures
        resolved_path(workspace, raw, field, absolute, base, target) is Err,
{
}

} // verus!
