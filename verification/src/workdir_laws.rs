//! What holds of every working directory: which workspace a run has, what a path
//! goes through, and which paths a node may use.
use vstd::prelude::*;

use crate::json::JsonView;
use crate::nodes::EngineErrorView;
use crate::text::{cut, lemma_cut_joined, lemma_cut_some, trimmed};
use crate::workdir::{
    about, is_absolute, joined, lies_inside, names_of, node_dir, path_names, resolved_dir,
    resolved_path, shape_refusal, traverses, workspace_of, Absolute,
};

verus! {

/// A run's own workspace counts before its trigger's, and a blank one is none.
pub proof fn runs_state_their_workspace(run: JsonView, own: Seq<char>, given: Seq<char>)
    ensures
        run.get("workspace"@) == Some(JsonView::String(own)) && trimmed(own).len() > 0
            ==> workspace_of(run) == Some(trimmed(own)),
        run.get("workspace"@) == Some(JsonView::String(own)) && trimmed(own).len() == 0
            ==> workspace_of(run) is None,
        run.get("workspace"@) is None && run.get("trigger"@) is Some && run.get(
            "trigger"@,
        )->0.get("workspace"@) == Some(JsonView::String(given)) && trimmed(given).len() > 0
            ==> workspace_of(run) == Some(trimmed(given)),
        run.get("workspace"@) is None && run.get("trigger"@) is None ==> workspace_of(run) is None,
{
}

proof fn lemma_names_joined(front: Seq<Seq<char>>, back: Seq<Seq<char>>)
    ensures
        names_of(front + back) == names_of(front) + names_of(back),
    decreases back.len(),
{
    if back.len() == 0 {
        assert(front + back =~= front);
        assert(names_of(front) + names_of(back) =~= names_of(front));
    } else {
        lemma_names_joined(front, back.drop_last());
        assert((front + back).drop_last() =~= front + back.drop_last());
        assert(names_of(front + back) =~= names_of(front) + names_of(back));
    }
}

/// A path goes through the names between its slashes, in order; what is empty or
/// a single dot is no name.
pub proof fn paths_go_through_their_names(front: Seq<char>, back: Seq<char>, name: Seq<char>)
    requires
        !name.contains('/'),
    ensures
        path_names(front.push('/') + back) == path_names(front) + path_names(back),
        name.len() == 0 || name == "."@ ==> path_names(name).len() == 0,
        name.len() > 0 && name != "."@ ==> path_names(name) == seq![name],
{
    lemma_cut_joined(front, back, '/');
    lemma_names_joined(cut(front, '/'), cut(back, '/'));
    lemma_cut_some(name, '/');
    assert(seq![name].drop_last() =~= Seq::empty());
    reveal_with_fuel(names_of, 2);
    if name.len() > 0 && name != "."@ {
        assert(path_names(name) =~= seq![name]);
    }
}

/// What is put under a base goes through the base's names and then its own, and
/// lies inside it; and an absolute path is put nowhere.
pub proof fn joined_paths_lie_under_their_base(base: Seq<char>, path: Seq<char>)
    requires
        base.len() > 0,
    ensures
        is_absolute(path) ==> joined(base, path) == path,
        !is_absolute(path) ==> {
            &&& path_names(joined(base, path)) == path_names(base) + path_names(path)
            &&& lies_inside(joined(base, path), base)
        },
{
    if !is_absolute(path) {
        reveal_strlit("/");
        assert("/"@ =~= seq!['/']);
        if base.last() == '/' {
            let front = base.drop_last();
            assert(front.push('/') =~= base);
            let none = Seq::<char>::empty();
            lemma_cut_joined(front, path, '/');
            lemma_names_joined(cut(front, '/'), cut(path, '/'));
            lemma_cut_joined(front, none, '/');
            lemma_names_joined(cut(front, '/'), cut(none, '/'));
            assert(front.push('/') + none =~= base);
            assert(seq![none].drop_last() =~= Seq::empty());
            reveal_with_fuel(names_of, 2);
            assert(names_of(cut(none, '/')) =~= Seq::empty());
            assert(path_names(base) =~= path_names(front));
        } else {
            assert(joined(base, path) =~= base.push('/') + path);
            lemma_cut_joined(base, path, '/');
            lemma_names_joined(cut(base, '/'), cut(path, '/'));
        }
        let whole = path_names(joined(base, path));
        assert(whole.subrange(0, path_names(base).len() as int) =~= path_names(base));
        assert(joined(base, path)[0] == base[0]);
    }
}

/// A path that leaves the base's names anywhere, or ends before them, or begins
/// elsewhere, does not lie inside.
pub proof fn strays_lie_outside(path: Seq<char>, base: Seq<char>, k: int)
    ensures
        is_absolute(path) != is_absolute(base) ==> !lies_inside(path, base),
        0 <= k < path_names(base).len() && (k >= path_names(path).len() || path_names(path)[k]
            != path_names(base)[k]) ==> !lies_inside(path, base),
        lies_inside(base, base),
{
    if lies_inside(path, base) && 0 <= k < path_names(base).len() {
        let n = path_names(base).len() as int;
        assert(path_names(path).subrange(0, n)[k] == path_names(path)[k]);
    }
    assert(path_names(base).subrange(0, path_names(base).len() as int) =~= path_names(base));
}

/// A relative path may be used exactly where it goes upwards nowhere, and an
/// absolute one exactly where such paths are allowed.
pub proof fn shapes_are_refused_for_cause(raw: Seq<char>, field: Seq<char>, absolute: Absolute)
    ensures
        is_absolute(raw) ==> (shape_refusal(raw, field, absolute) is None <==> absolute
            == Absolute::AllowInside),
        !is_absolute(raw) ==> (shape_refusal(raw, field, absolute) is None <==> forall|i: int|
            0 <= i < path_names(raw).len() ==> #[trigger] path_names(raw)[i] != ".."@),
{
    if !is_absolute(raw) {
        if traverses(raw) {
            let i = choose|i: int| 0 <= i < path_names(raw).len() && path_names(raw)[i] == ".."@;
            assert(path_names(raw)[i] == ".."@);
        } else {
            assert forall|i: int| 0 <= i < path_names(raw).len() implies #[trigger] path_names(
                raw,
            )[i] != ".."@ by {
                if path_names(raw)[i] == ".."@ {
                    assert(path_names(raw).contains(".."@));
                }
            }
        }
    }
}

/// A path may be used exactly where its shape is sound, the host finds both the
/// workspace and the path, and the one lies in the other; and it is used as the
/// host found it.
pub proof fn paths_are_used_where_they_are_found(
    workspace: Seq<char>,
    raw: Seq<char>,
    field: Seq<char>,
    absolute: Absolute,
    base: Result<Seq<char>, Seq<char>>,
    target: Result<Seq<char>, Seq<char>>,
    path: Seq<char>,
)
    ensures
        resolved_path(workspace, raw, field, absolute, base, target) == Ok::<
            Seq<char>,
            Seq<char>,
        >(path) <==> {
            &&& is_absolute(raw) ==> absolute == Absolute::AllowInside
            &&& !is_absolute(raw) ==> !path_names(raw).contains(".."@)
            &&& base is Ok
            &&& target == Ok::<Seq<char>, Seq<char>>(path)
            &&& lies_inside(path, base->Ok_0)
        },
{
}

/// A refused path is named, with the field it stood in; only where the workspace
/// itself cannot be read does the refusal name that.
pub proof fn refusals_name_the_path(
    workspace: Seq<char>,
    raw: Seq<char>,
    field: Seq<char>,
    absolute: Absolute,
    base: Result<Seq<char>, Seq<char>>,
    target: Result<Seq<char>, Seq<char>>,
)
    requires
        resolved_path(workspace, raw, field, absolute, base, target) is Err,
        base is Ok,
    ensures
        ("`"@ + field + "` ('"@ + raw + "')"@).is_prefix_of(
            resolved_path(workspace, raw, field, absolute, base, target)->Err_0,
        ),
{
    let text = resolved_path(workspace, raw, field, absolute, base, target)->Err_0;
    let front = about(field, raw);
    assert(text.subrange(0, front.len() as int) =~= front);
}

/// A run without a workspace uses directories as they are written. One that has a
/// workspace uses what is found inside it and is a directory, and nothing else;
/// what is wrong is said of the surface that asked.
pub proof fn nodes_run_inside_the_workspace(
    run: JsonView,
    raw: Seq<char>,
    field: Seq<char>,
    surface: Seq<char>,
    base: Result<Seq<char>, Seq<char>>,
    target: Result<Seq<char>, Seq<char>>,
    is_dir: bool,
)
    ensures
        ({
            let settled = node_dir(run, raw, field, surface, base, target, is_dir);
            &&& workspace_of(run) is None ==> settled == Ok::<Seq<char>, EngineErrorView>(raw)
            &&& workspace_of(run) is Some ==> {
                &&& settled is Ok <==> is_dir && base is Ok && target is Ok && lies_inside(
                    target->Ok_0,
                    base->Ok_0,
                ) && !traverses(raw)
                &&& settled is Ok ==> settled->Ok_0 == target->Ok_0
                &&& settled is Err ==> settled->Err_0 is Capability && (surface
                    + ": "@).is_prefix_of(settled->Err_0->Capability_0)
            }
        }),
{
    let settled = node_dir(run, raw, field, surface, base, target, is_dir);
    if workspace_of(run) is Some && settled is Err {
        let text = settled->Err_0->Capability_0;
        let front = surface + ": "@;
        let why = resolved_dir(
            resolved_path(
                workspace_of(run)->0,
                raw,
                field,
                Absolute::AllowInside,
                base,
                target,
            ),
            raw,
            field,
            is_dir,
        )->Err_0;
        assert(text == front + why);
        assert(text.subrange(0, front.len() as int) =~= front);
    }
}

} // verus!
