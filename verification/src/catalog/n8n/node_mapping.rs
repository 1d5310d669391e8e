//! n8n node types as node kinds and configurations.
//!
//! What cannot be mapped faithfully is kept for its author under
//! `_n8n_import`, and a warning says so: a node that would run otherwise than
//! it did is never made in silence.
use vstd::prelude::*;

use crate::catalog::n8n::expr::{config_warnings, is_left_raw, translate_config, translated};
use crate::catalog::n8n::javascript::{top_level, uses_from, uses_n8n_code_globals};
use crate::json::{
    entry, member, members, object, set_member, text_json, with_member, Json, JsonView, Number,
    NumberView,
};
use crate::model::graph::NodeKind;
use crate::text::{chars_of, decimal, decimal_text, opt_str, opt_view, same, text_of, views};
use vstd::slice::slice_subrange;

verus! {

/// What follows the last `.` of a type name, and the whole name where it has
/// none.
pub open spec fn short_type(name: Seq<char>) -> Seq<char>
    decreases name.len(),
{
    if name.len() == 0 || name.last() == '.' {
        Seq::empty()
    } else {
        short_type(name.drop_last()).push(name.last())
    }
}

fn short_of(name: &str) -> (r: String)
    ensures
        r@ == short_type(name@),
{
    let chars = chars_of(name);
    let mut from: usize = chars.len();
    let ghost all = chars@;
    assert(all.take(all.len() as int) =~= all);
    assert(short_type(all) =~= short_type(all.take(from as int)) + all.skip(from as int));
    while from > 0 && chars[from - 1] != '.'
        invariant
            from <= chars@.len(),
            all == chars@,
            short_type(all) == short_type(all.take(from as int)) + all.skip(from as int),
        decreases from,
    {
        let ghost head = all.take(from as int);
        assert(head.drop_last() =~= all.take(from - 1));
        assert(short_type(head) == short_type(head.drop_last()).push(head.last()));
        assert(short_type(head) + all.skip(from as int) =~= short_type(all.take(from - 1))
            + all.skip(from - 1));
        from = from - 1;
    }
    let ghost head = all.take(from as int);
    assert(short_type(head) == Seq::<char>::empty());
    let r = text_of(slice_subrange(chars.as_slice(), from, chars.len()));
    assert(r@ =~= all.skip(from as int));
    assert(r@ =~= short_type(all));
    r
}

/// The members of a translated object; none for any other value.
pub open spec fn config_of(params: JsonView) -> Seq<(Seq<char>, JsonView)> {
    match translated(params) {
        JsonView::Object(entries) => entries,
        _ => Seq::empty(),
    }
}

fn translate_members(params: &Json, warnings: &mut Vec<String>, n8n_name: &str) -> (r: Vec<
    (String, Json),
>)
    ensures
        members(r@) == config_of(params@),
        views(final(warnings)@) == views(old(warnings)@) + config_warnings(params@, n8n_name@),
{
    let value = translate_config(params, warnings, n8n_name);
    match value {
        Json::Object(entries) => {
            proof {
                crate::json::lemma_object(entries);
            }
            entries
        },
        _ => {
            let none: Vec<(String, Json)> = Vec::new();
            assert(members(none@) =~= Seq::empty());
            none
        },
    }
}

/// The members without the first of a key.
pub open spec fn without(entries: Seq<(Seq<char>, JsonView)>, key: Seq<char>) -> Seq<
    (Seq<char>, JsonView),
>
    decreases entries.len(),
{
    if entries.len() == 0 {
        Seq::empty()
    } else if entries[0].0 == key {
        entries.drop_first()
    } else {
        seq![entries[0]] + without(entries.drop_first(), key)
    }
}

proof fn lemma_without(entries: Seq<(Seq<char>, JsonView)>, key: Seq<char>, n: int)
    requires
        0 <= n <= entries.len(),
        forall|k: int| 0 <= k < n ==> (#[trigger] entries[k]).0 != key,
    ensures
        without(entries, key) == entries.take(n) + without(entries.skip(n), key),
        entry(entries, key) == entry(entries.skip(n), key),
    decreases n,
{
    if n == 0 {
        assert(entries.skip(0) =~= entries);
        assert(entries.take(0) + without(entries, key) =~= without(entries, key));
    } else {
        let rest = entries.drop_first();
        assert forall|k: int| 0 <= k < n - 1 implies (#[trigger] rest[k]).0 != key by {
            assert(rest[k] == entries[k + 1]);
        }
        lemma_without(rest, key, n - 1);
        assert(rest.skip(n - 1) =~= entries.skip(n));
        assert(seq![entries[0]] + (rest.take(n - 1) + without(entries.skip(n), key))
            =~= entries.take(n) + without(entries.skip(n), key));
    }
}

fn take_member(entries: &mut Vec<(String, Json)>, key: &str) -> (r: Option<Json>)
    ensures
        opt_view(r) == entry(members(old(entries)@), key@),
        members(final(entries)@) == without(members(old(entries)@), key@),
{
    let ghost all = members(entries@);
    let mut i: usize = 0;
    while i < entries.len()
        invariant
            i <= entries@.len(),
            all == members(entries@),
            all == members(old(entries)@),
            forall|k: int| 0 <= k < i ==> (#[trigger] all[k]).0 != key@,
        decreases entries@.len() - i,
    {
        assert(all[i as int] == (entries@[i as int].0@, entries@[i as int].1@));
        if same(entries[i].0.as_str(), key) {
            let found = entries.remove(i);
            proof {
                lemma_without(all, key@, i as int);
                assert(all.skip(i as int)[0] == all[i as int]);
                assert(all.skip(i as int).drop_first() =~= all.skip(i + 1));
                assert(members(entries@) =~= all.take(i as int) + all.skip(i + 1));
            }
            return Some(found.1);
        }
        i = i + 1;
    }
    proof {
        lemma_without(all, key@, all.len() as int);
        assert(all.take(all.len() as int) + without(all.skip(all.len() as int), key@) =~= all);
    }
    None
}

/// The members with one added at the end, unless the key is there already.
pub open spec fn with_default(
    entries: Seq<(Seq<char>, JsonView)>,
    key: Seq<char>,
    value: JsonView,
) -> Seq<(Seq<char>, JsonView)> {
    if entry(entries, key) is Some {
        entries
    } else {
        entries.push((key, value))
    }
}

fn holds_key(entries: &Vec<(String, Json)>, key: &str) -> (r: bool)
    ensures
        r == (entry(members(entries@), key@) is Some),
{
    let ghost all = members(entries@);
    let mut i: usize = 0;
    while i < entries.len()
        invariant
            i <= entries@.len(),
            all == members(entries@),
            forall|k: int| 0 <= k < i ==> (#[trigger] all[k]).0 != key@,
        decreases entries@.len() - i,
    {
        assert(all[i as int] == (entries@[i as int].0@, entries@[i as int].1@));
        if same(entries[i].0.as_str(), key) {
            proof {
                lemma_without(all, key@, i as int);
                assert(all.skip(i as int)[0] == all[i as int]);
            }
            return true;
        }
        i = i + 1;
    }
    proof {
        lemma_without(all, key@, all.len() as int);
    }
    false
}

fn add_default(entries: &mut Vec<(String, Json)>, key: &str, value: Json)
    ensures
        members(final(entries)@) == with_default(members(old(entries)@), key@, value@),
{
    if !holds_key(entries, key) {
        entries.push(member(key, value));
        assert(members(entries@) =~= members(old(entries)@).push((key@, value@)));
    }
}

/// `Node '<name>'`, which every warning about a node begins with.
pub open spec fn node_text(name: Seq<char>) -> Seq<char> {
    "Node '"@ + name + "'"@
}

fn warn(warnings: &mut Vec<String>, name: &str, text: &str)
    ensures
        views(final(warnings)@) == views(old(warnings)@).push(node_text(name@) + text@),
{
    let mut warning = "Node '".to_owned();
    warning.append(name);
    warning.append("'");
    warning.append(text);
    warnings.push(warning);
    assert(views(warnings@) =~= views(old(warnings)@).push(node_text(name@) + text@));
}

/// Members whose original is kept for the author.
pub open spec fn annotated(
    entries: Seq<(Seq<char>, JsonView)>,
    kept: Seq<(Seq<char>, JsonView)>,
) -> Seq<(Seq<char>, JsonView)> {
    with_member(entries, "_n8n_import"@, JsonView::Object(kept))
}

/// What is said of an IF node whose conditions were not understood.
pub open spec fn condition_warning(name: Seq<char>) -> Seq<char> {
    node_text(name)
        + " has n8n conditions that could not be translated; they are kept in its configuration, and it has to be rebuilt before the flow is enabled."@
}

/// An IF node's configuration: as translated where it names a field, and else
/// with its original conditions kept.
pub open spec fn condition_config(params: JsonView) -> JsonView {
    let cfg = config_of(params);
    if entry(cfg, "field"@) is Some {
        JsonView::Object(cfg)
    } else {
        JsonView::Object(annotated(cfg, seq![("conditions"@, params.at("conditions"@))]))
    }
}

/// Maps an n8n `if` node.
pub fn map_condition(params: &Json, warnings: &mut Vec<String>, n8n_name: &str) -> (r: Json)
    ensures
        r@ == condition_config(params@),
        views(final(warnings)@) == views(old(warnings)@) + config_warnings(params@, n8n_name@) + (
        if entry(config_of(params@), "field"@) is Some {
            Seq::empty()
        } else {
            seq![condition_warning(n8n_name@)]
        }),
{
    let ghost before = views(warnings@);
    let mut cfg = translate_members(params, warnings, n8n_name);
    let ghost said = views(warnings@);
    if !holds_key(&cfg, "field") {
        let mut kept: Vec<(String, Json)> = Vec::new();
        kept.push(member("conditions", params.at("conditions")));
        assert(members(kept@) =~= seq![("conditions"@, params@.at("conditions"@))]);
        set_member(&mut cfg, "_n8n_import", object(kept));
        warn(
            warnings,
            n8n_name,
            " has n8n conditions that could not be translated; they are kept in its configuration, and it has to be rebuilt before the flow is enabled.",
        );
        assert(views(warnings@) =~= said + seq![condition_warning(n8n_name@)]);
    } else {
        assert(said + Seq::empty() =~= said);
    }
    object(cfg)
}

/// What is said of a switch node whose rules were not understood.
pub open spec fn switch_warning(name: Seq<char>) -> Seq<char> {
    node_text(name)
        + " has n8n rules that could not be translated; they are kept in its configuration, and it has to be rebuilt before the flow is enabled."@
}

/// The configuration says what a switch routes by.
pub open spec fn routes(cfg: Seq<(Seq<char>, JsonView)>) -> bool {
    entry(cfg, "field"@) is Some || entry(cfg, "expression"@) is Some
}

/// A switch node's configuration: as translated where it says what to route
/// by, and else with its original rules kept.
pub open spec fn switch_config(params: JsonView) -> JsonView {
    let cfg = config_of(params);
    if routes(cfg) {
        JsonView::Object(cfg)
    } else {
        JsonView::Object(annotated(cfg, seq![("rules"@, params.at("rules"@))]))
    }
}

/// Maps an n8n `switch` node.
pub fn map_switch(params: &Json, warnings: &mut Vec<String>, n8n_name: &str) -> (r: Json)
    ensures
        r@ == switch_config(params@),
        views(final(warnings)@) == views(old(warnings)@) + config_warnings(params@, n8n_name@) + (
        if routes(config_of(params@)) {
            Seq::empty()
        } else {
            seq![switch_warning(n8n_name@)]
        }),
{
    let mut cfg = translate_members(params, warnings, n8n_name);
    let ghost said = views(warnings@);
    if !(holds_key(&cfg, "field") || holds_key(&cfg, "expression")) {
        let mut kept: Vec<(String, Json)> = Vec::new();
        kept.push(member("rules", params.at("rules")));
        assert(members(kept@) =~= seq![("rules"@, params@.at("rules"@))]);
        set_member(&mut cfg, "_n8n_import", object(kept));
        warn(
            warnings,
            n8n_name,
            " has n8n rules that could not be translated; they are kept in its configuration, and it has to be rebuilt before the flow is enabled.",
        );
        assert(views(warnings@) =~= said + seq![switch_warning(n8n_name@)]);
    } else {
        assert(said + Seq::empty() =~= said);
    }
    object(cfg)
}

/// A split node's configuration: the field to split goes by `path`.
pub open spec fn split_config(params: JsonView) -> JsonView {
    let cfg = config_of(params);
    match entry(cfg, "fieldToSplitOut"@) {
        Some(field) => JsonView::Object(
            with_member(without(cfg, "fieldToSplitOut"@), "path"@, field),
        ),
        None => JsonView::Object(without(cfg, "fieldToSplitOut"@)),
    }
}

/// Maps an n8n `splitOut` node.
pub fn map_split_out(params: &Json, warnings: &mut Vec<String>, n8n_name: &str) -> (r: Json)
    ensures
        r@ == split_config(params@),
        views(final(warnings)@) == views(old(warnings)@) + config_warnings(params@, n8n_name@),
{
    let mut cfg = translate_members(params, warnings, n8n_name);
    match take_member(&mut cfg, "fieldToSplitOut") {
        Some(field) => {
            set_member(&mut cfg, "path", field);
        },
        None => {},
    }
    object(cfg)
}

/// An HTTP node's configuration: `requestMethod` is the older spelling of
/// `method`, and a request without a method is a `GET`.
pub open spec fn http_config(params: JsonView) -> Seq<(Seq<char>, JsonView)> {
    let cfg = config_of(params);
    let named = match entry(cfg, "method"@) {
        Some(_) => cfg,
        None => match entry(cfg, "requestMethod"@) {
            Some(method) => with_member(without(cfg, "requestMethod"@), "method"@, method),
            None => cfg,
        },
    };
    with_default(named, "method"@, JsonView::String("GET"@))
}

proof fn lemma_without_absent(entries: Seq<(Seq<char>, JsonView)>, key: Seq<char>)
    requires
        entry(entries, key) is None,
    ensures
        without(entries, key) == entries,
    decreases entries.len(),
{
    if entries.len() > 0 {
        lemma_without_absent(entries.drop_first(), key);
        assert(seq![entries[0]] + entries.drop_first() =~= entries);
    }
}

/// Maps the parameters of an n8n `httpRequest` node.
pub fn map_http_request(params: &Json, warnings: &mut Vec<String>, n8n_name: &str) -> (r: Json)
    ensures
        r@ == JsonView::Object(http_config(params@)),
        views(final(warnings)@) == views(old(warnings)@) + config_warnings(params@, n8n_name@),
{
    let mut cfg = translate_members(params, warnings, n8n_name);
    let ghost plain = members(cfg@);
    if !holds_key(&cfg, "method") {
        match take_member(&mut cfg, "requestMethod") {
            Some(method) => {
                set_member(&mut cfg, "method", method);
            },
            None => {
                proof {
                    lemma_without_absent(plain, "requestMethod"@);
                }
            },
        }
    }
    add_default(&mut cfg, "method", text_json("GET"));
    object(cfg)
}

/// A list of named values, as n8n writes headers and body fields.
pub open spec fn is_named_list(value: JsonView) -> bool {
    value.at("parameters"@) is Array
}

/// Whether an HTTP part is kept for its author instead of being sent: a list
/// of fields in another shape than n8n's, or a body expression that has no
/// translation.
pub open spec fn is_kept_part(params: JsonView, key: Seq<char>) -> bool {
    match params.get(key) {
        Some(value) => if key == "jsonBody"@ {
            value matches JsonView::String(text) && is_left_raw(text)
        } else {
            !is_named_list(value)
        },
        None => false,
    }
}

/// The parts of an HTTP node that may have to be kept.
pub open spec fn http_parts() -> Seq<Seq<char>> {
    seq!["jsonBody"@, "bodyParameters"@, "headerParameters"@, "queryParameters"@]
}

/// The kept parts among the first `n`, as they were written.
pub open spec fn kept_parts(params: JsonView, n: nat) -> Seq<(Seq<char>, JsonView)>
    decreases n,
{
    if n == 0 {
        Seq::empty()
    } else {
        let rest = kept_parts(params, (n - 1) as nat);
        let key = http_parts()[n - 1];
        if is_kept_part(params, key) {
            rest.push((key, params.at(key)))
        } else {
            rest
        }
    }
}

/// What is said of an HTTP node that could not be mapped whole.
pub open spec fn http_warning(name: Seq<char>) -> Seq<char> {
    node_text(name)
        + " sends request parts that could not be translated; it was imported as an editable placeholder that keeps them."@
}

/// What an HTTP node becomes: a request where every part is understood, and
/// else a placeholder that keeps what was not.
pub open spec fn http_node(params: JsonView) -> (NodeKind, JsonView) {
    let kept = kept_parts(params, http_parts().len());
    if kept.len() == 0 {
        (NodeKind::HttpRequest, JsonView::Object(http_config(params)))
    } else {
        (
            NodeKind::Transform,
            JsonView::Object(
                annotated(http_config(params), seq![("untranslated"@, JsonView::Object(kept))]),
            ),
        )
    }
}

/// The warnings of an HTTP node.
pub open spec fn http_warnings(params: JsonView, name: Seq<char>) -> Seq<Seq<char>> {
    if kept_parts(params, http_parts().len()).len() == 0 {
        config_warnings(params, name)
    } else {
        config_warnings(params, name).push(http_warning(name))
    }
}

fn keep_part(params: &Json, key: &str, kept: &mut Vec<(String, Json)>)
    requires
        http_parts().contains(key@),
    ensures
        members(final(kept)@) == (if is_kept_part(params@, key@) {
            members(old(kept)@).push((key@, params@.at(key@)))
        } else {
            members(old(kept)@)
        }),
{
    match params.get(key) {
        Some(value) => {
            let keep = if same(key, "jsonBody") {
                match value {
                    Json::String(text) => left_raw(text.as_str()),
                    _ => false,
                }
            } else {
                match value.get("parameters") {
                    Some(list) => match list {
                        Json::Array(_) => false,
                        _ => true,
                    },
                    None => true,
                }
            };
            if keep {
                kept.push(member(key, value.clone()));
                assert(members(kept@) =~= members(old(kept)@).push((key@, params@.at(key@))));
            }
        },
        None => {},
    }
}

fn left_raw(raw: &str) -> (r: bool)
    ensures
        r == is_left_raw(raw@),
{
    let mut said: Vec<String> = Vec::new();
    let ghost none = views(said@);
    let _text = crate::catalog::n8n::expr::translate_expr(raw, &mut said, "");
    assert(none.len() == 0);
    assert(views(said@).len() == said@.len());
    said.len() > 0
}

/// Maps an n8n `httpRequest` node.
pub fn map_http_request_node(params: &Json, warnings: &mut Vec<String>, n8n_name: &str) -> (r: (
    NodeKind,
    Json,
))
    ensures
        (r.0, r.1@) == http_node(params@),
        views(final(warnings)@) == views(old(warnings)@) + http_warnings(params@, n8n_name@),
{
    let ghost before = views(warnings@);
    let cfg = map_http_request(params, warnings, n8n_name);
    let mut kept: Vec<(String, Json)> = Vec::new();
    let ghost parts = http_parts();
    assert(parts.contains(parts[0]) && parts.contains(parts[1]) && parts.contains(parts[2])
        && parts.contains(parts[3]));
    assert(members(kept@) =~= kept_parts(params@, 0));
    keep_part(params, "jsonBody", &mut kept);
    assert(members(kept@) =~= kept_parts(params@, 1)) by {
        reveal_with_fuel(kept_parts, 2);
    }
    keep_part(params, "bodyParameters", &mut kept);
    assert(members(kept@) =~= kept_parts(params@, 2));
    keep_part(params, "headerParameters", &mut kept);
    assert(members(kept@) =~= kept_parts(params@, 3));
    keep_part(params, "queryParameters", &mut kept);
    assert(members(kept@) =~= kept_parts(params@, 4));
    if kept.len() == 0 {
        return (NodeKind::HttpRequest, cfg);
    }
    warn(
        warnings,
        n8n_name,
        " sends request parts that could not be translated; it was imported as an editable placeholder that keeps them.",
    );
    assert(views(warnings@) =~= before + http_warnings(params@, n8n_name@));
    let mut note: Vec<(String, Json)> = Vec::new();
    note.push(member("untranslated", object(kept)));
    assert(members(note@) =~= seq![
        ("untranslated"@, JsonView::Object(kept_parts(params@, http_parts().len()))),
    ]);
    match cfg {
        Json::Object(entries) => {
            proof {
                crate::json::lemma_object(entries);
            }
            let mut grown = entries;
            set_member(&mut grown, "_n8n_import", object(note));
            (NodeKind::Transform, object(grown))
        },
        _ => (NodeKind::Transform, cfg),
    }
}

/// Where n8n keeps a code node's source, and the language it is in.
pub open spec fn code_keys() -> Seq<(Seq<char>, Seq<char>)> {
    seq![
        ("jsCode"@, "javascript"@),
        ("functionCode"@, "javascript"@),
        ("pythonCode"@, "python"@),
    ]
}

/// The configuration after the first `n` source keys: the source goes by
/// `source`, with its language.
pub open spec fn code_config(params: JsonView, n: nat) -> Seq<(Seq<char>, JsonView)>
    decreases n,
{
    if n == 0 {
        config_of(params)
    } else {
        let rest = code_config(params, (n - 1) as nat);
        let (key, language) = code_keys()[n - 1];
        match entry(rest, key) {
            Some(code) => with_default(
                with_default(without(rest, key), "source"@, code),
                "language"@,
                JsonView::String(language),
            ),
            None => rest,
        }
    }
}

/// The source is JavaScript that reads n8n's own globals, or returns from the
/// top level.
pub open spec fn needs_n8n(cfg: JsonView) -> bool {
    &&& cfg.text_at("language"@) == Some("javascript"@)
    &&& cfg.text_at("source"@) matches Some(source) && uses_from(source, 0, top_level())
}

/// What is said of a code node that only runs in n8n.
pub open spec fn code_warning(name: Seq<char>) -> Seq<char> {
    node_text(name)
        + " uses n8n-only globals or a top-level return; its code has to be rewritten before the flow is enabled."@
}

/// The warnings of a code node.
pub open spec fn code_warnings(params: JsonView, name: Seq<char>) -> Seq<Seq<char>> {
    if needs_n8n(JsonView::Object(code_config(params, code_keys().len()))) {
        config_warnings(params, name).push(code_warning(name))
    } else {
        config_warnings(params, name)
    }
}

fn pull_source(cfg: &mut Vec<(String, Json)>, key: &str, language: &str)
    ensures
        members(final(cfg)@) == (match entry(members(old(cfg)@), key@) {
            Some(code) => with_default(
                with_default(without(members(old(cfg)@), key@), "source"@, code),
                "language"@,
                JsonView::String(language@),
            ),
            None => members(old(cfg)@),
        }),
{
    let ghost before = members(cfg@);
    match take_member(cfg, key) {
        Some(code) => {
            add_default(cfg, "source", code);
            add_default(cfg, "language", text_json(language));
        },
        None => {
            proof {
                lemma_without_absent(before, key@);
            }
        },
    }
}

/// Maps an n8n `code` or `function` node.
pub fn map_code(params: &Json, warnings: &mut Vec<String>, n8n_name: &str) -> (r: Json)
    ensures
        r@ == JsonView::Object(code_config(params@, code_keys().len())),
        views(final(warnings)@) == views(old(warnings)@) + code_warnings(params@, n8n_name@),
{
    let ghost before = views(warnings@);
    let mut cfg = translate_members(params, warnings, n8n_name);
    let ghost said = views(warnings@);
    assert(members(cfg@) == code_config(params@, 0));
    pull_source(&mut cfg, "jsCode", "javascript");
    assert(members(cfg@) == code_config(params@, 1)) by {
        reveal_with_fuel(code_config, 2);
    }
    pull_source(&mut cfg, "functionCode", "javascript");
    assert(members(cfg@) == code_config(params@, 2));
    pull_source(&mut cfg, "pythonCode", "python");
    assert(members(cfg@) == code_config(params@, 3));
    let r = object(cfg);
    let scripted = match r.text_at("language") {
        Some(language) => same(language, "javascript"),
        None => false,
    };
    let foreign = match r.text_at("source") {
        Some(source) => scripted && uses_n8n_code_globals(source),
        None => false,
    };
    if foreign {
        warn(
            warnings,
            n8n_name,
            " uses n8n-only globals or a top-level return; its code has to be rewritten before the flow is enabled.",
        );
        assert(views(warnings@) =~= before + code_warnings(params@, n8n_name@));
    }
    r
}

/// Milliseconds in a unit of time.
pub open spec fn unit_ms(unit: Seq<char>) -> Option<nat> {
    if unit == "seconds"@ {
        Some(1000)
    } else if unit == "minutes"@ {
        Some(60000)
    } else if unit == "hours"@ {
        Some(3600000)
    } else if unit == "days"@ {
        Some(86400000)
    } else {
        None
    }
}

fn unit_length(unit: &str) -> (r: Option<u64>)
    ensures
        match r {
            Some(ms) => unit_ms(unit@) == Some(ms as nat) && 0 < ms <= 86400000,
            None => unit_ms(unit@) is None,
        },
{
    if same(unit, "seconds") {
        Some(1000)
    } else if same(unit, "minutes") {
        Some(60000)
    } else if same(unit, "hours") {
        Some(3600000)
    } else if same(unit, "days") {
        Some(86400000)
    } else {
        None
    }
}

/// The schedule of a cron expression.
pub open spec fn cron(expr: Seq<char>) -> JsonView {
    JsonView::Object(
        seq![("kind"@, JsonView::String("cron"@)), ("expr"@, JsonView::String(expr))],
    )
}

/// The schedule that repeats every so many milliseconds, held as a number with
/// a fraction.
pub open spec fn every(ms: nat) -> JsonView {
    JsonView::Object(
        seq![
            ("kind"@, JsonView::String("every"@)),
            ("every_ms"@, JsonView::Number(NumberView::Float(decimal(ms) + ".0"@))),
        ],
    )
}

/// The largest count up to which every integer is a double.
pub const EXACT_MS: u64 = 9007199254740991;

/// The schedule of an interval, where its unit is known and its length is
/// counted exactly.
pub open spec fn interval_of(unit: Option<Seq<char>>, count: JsonView) -> Option<JsonView> {
    match unit {
        Some(name) => match unit_ms(name) {
            Some(ms) => match count.as_u64() {
                Some(n) => if n * ms <= EXACT_MS {
                    Some(every((n * ms) as nat))
                } else {
                    None
                },
                None => None,
            },
            None => None,
        },
        None => None,
    }
}

/// The schedule of the first rule of a schedule trigger.
pub open spec fn rule_schedule(rule: JsonView) -> Option<JsonView> {
    match rule.text_at("field"@) {
        Some(field) => if field == "cronExpression"@ {
            match rule.text_at("expression"@) {
                Some(expr) => Some(cron(expr)),
                None => None,
            }
        } else {
            interval_of(Some(field), rule.at(field + "Interval"@))
        },
        None => None,
    }
}

/// The schedule a trigger's parameters describe: a cron expression, a unit and
/// a value, or a rule.
pub open spec fn schedule_of(cfg: JsonView) -> Option<JsonView> {
    match cfg.text_at("cronExpression"@) {
        Some(expr) => Some(cron(expr)),
        None => match interval_of(cfg.text_at("unit"@), cfg.at("value"@)) {
            Some(schedule) => Some(schedule),
            None => rule_schedule(cfg.at("rule"@).at("interval"@).first()),
        },
    }
}

fn cron_json(expr: &str) -> (r: Json)
    ensures
        r@ == cron(expr@),
{
    let mut entries: Vec<(String, Json)> = Vec::new();
    entries.push(member("kind", text_json("cron")));
    entries.push(member("expr", text_json(expr)));
    assert(members(entries@) =~= cron(expr@)->Object_0);
    object(entries)
}

fn every_json(ms: u64) -> (r: Json)
    ensures
        r@ == every(ms as nat),
{
    let mut text = decimal_text(ms);
    text.append(".0");
    let mut entries: Vec<(String, Json)> = Vec::new();
    entries.push(member("kind", text_json("every")));
    entries.push(member("every_ms", Json::Number(Number::Float(text))));
    assert(members(entries@) =~= every(ms as nat)->Object_0);
    object(entries)
}

fn interval_json(unit: Option<&str>, count: &Json) -> (r: Option<Json>)
    ensures
        opt_view(r) == interval_of(opt_str(unit), count@),
{
    let ms: u64 = match unit {
        Some(name) => match unit_length(name) {
            Some(ms) => ms,
            None => {
                return None;
            },
        },
        None => {
            return None;
        },
    };
    match count.as_u64() {
        Some(n) => match n.checked_mul(ms) {
            Some(total) => {
                if total <= EXACT_MS {
                    Some(every_json(total))
                } else {
                    None
                }
            },
            None => None,
        },
        None => None,
    }
}

fn rule_json(rule: &Json) -> (r: Option<Json>)
    ensures
        opt_view(r) == rule_schedule(rule@),
{
    match rule.text_at("field") {
        Some(field) => {
            if same(field, "cronExpression") {
                match rule.text_at("expression") {
                    Some(expr) => Some(cron_json(expr)),
                    None => None,
                }
            } else {
                let mut key = field.to_owned();
                key.append("Interval");
                let count = rule.at(key.as_str());
                interval_json(Some(field), &count)
            }
        },
        None => None,
    }
}

fn schedule_json(cfg: &Json) -> (r: Option<Json>)
    ensures
        opt_view(r) == schedule_of(cfg@),
{
    match cfg.text_at("cronExpression") {
        Some(expr) => {
            return Some(cron_json(expr));
        },
        None => {},
    }
    let value = cfg.at("value");
    match interval_json(cfg.text_at("unit"), &value) {
        Some(schedule) => {
            return Some(schedule);
        },
        None => {},
    }
    let rule = cfg.at("rule");
    let list = rule.at("interval");
    let first = list.first();
    rule_json(&first)
}

/// What is said of a schedule that was not understood.
pub open spec fn schedule_warning(name: Seq<char>) -> Seq<char> {
    node_text(name)
        + " has an n8n schedule that could not be translated; set its schedule before the flow is enabled."@
}

/// A trigger's parameters, with what kind of trigger it is.
pub open spec fn kinded(kind: Seq<char>, params: JsonView) -> Seq<(Seq<char>, JsonView)> {
    with_member(config_of(params), "trigger_kind"@, JsonView::String(kind))
}

/// A trigger's configuration: its translated parameters, its kind, and its
/// schedule where it has one.
pub open spec fn trigger_settings(kind: Seq<char>, params: JsonView) -> JsonView {
    let cfg = kinded(kind, params);
    if kind == "schedule"@ && schedule_of(JsonView::Object(cfg)) is Some {
        JsonView::Object(with_member(cfg, "schedule"@, schedule_of(JsonView::Object(cfg))->0))
    } else {
        JsonView::Object(cfg)
    }
}

/// The warnings of a trigger.
pub open spec fn trigger_warnings(kind: Seq<char>, params: JsonView, name: Seq<char>) -> Seq<
    Seq<char>,
> {
    if kind == "schedule"@ && schedule_of(JsonView::Object(kinded(kind, params))) is None {
        config_warnings(params, name).push(schedule_warning(name))
    } else {
        config_warnings(params, name)
    }
}

/// Builds a trigger's configuration.
pub fn trigger_config(
    trigger_kind: &str,
    params: &Json,
    warnings: &mut Vec<String>,
    n8n_name: &str,
) -> (r: Json)
    ensures
        r@ == trigger_settings(trigger_kind@, params@),
        views(final(warnings)@) == views(old(warnings)@) + trigger_warnings(
            trigger_kind@,
            params@,
            n8n_name@,
        ),
{
    let ghost before = views(warnings@);
    let mut cfg = translate_members(params, warnings, n8n_name);
    set_member(&mut cfg, "trigger_kind", text_json(trigger_kind));
    if same(trigger_kind, "schedule") {
        let settings = object(cfg);
        match schedule_json(&settings) {
            Some(schedule) => match settings {
                Json::Object(entries) => {
                    proof {
                        crate::json::lemma_object(entries);
                    }
                    let mut grown = entries;
                    set_member(&mut grown, "schedule", schedule);
                    object(grown)
                },
                _ => settings,
            },
            None => {
                warn(
                    warnings,
                    n8n_name,
                    " has an n8n schedule that could not be translated; set its schedule before the flow is enabled.",
                );
                assert(views(warnings@) =~= before + trigger_warnings(
                    trigger_kind@,
                    params@,
                    n8n_name@,
                ));
                settings
            },
        }
    } else {
        object(cfg)
    }
}

/// What is said of a type with no equivalent.
pub open spec fn unmapped_warning(name: Seq<char>, n8n_type: Seq<char>) -> Seq<char> {
    node_text(name) + (" has n8n type '"@ + n8n_type
        + "', which has no tinyflows equivalent — imported as an editable placeholder that carries its original configuration. Replace it with a supported node before enabling the flow."@)
}

/// The placeholder of a node with no equivalent: its type, and its parameters
/// as they were.
pub open spec fn placeholder(n8n_type: Seq<char>, params: JsonView) -> JsonView {
    JsonView::Object(
        seq![
            (
                "_n8n_import"@,
                JsonView::Object(
                    seq![
                        ("original_type"@, JsonView::String(n8n_type)),
                        (
                            "note"@,
                            JsonView::String(
                                "Unmapped n8n node imported as a placeholder; original parameters preserved below."@,
                            ),
                        ),
                    ],
                ),
            ),
            ("parameters"@, params),
        ],
    )
}

/// The placeholder of a node with no equivalent.
pub fn placeholder_json(n8n_type: &str, params: &Json) -> (r: Json)
    ensures
        r@ == placeholder(n8n_type@, params@),
{
    let mut note: Vec<(String, Json)> = Vec::new();
    note.push(member("original_type", text_json(n8n_type)));
    note.push(
        member(
            "note",
            text_json(
                "Unmapped n8n node imported as a placeholder; original parameters preserved below.",
            ),
        ),
    );
    assert(members(note@) =~= placeholder(n8n_type@, params@)->Object_0[0].1->Object_0);
    let mut entries: Vec<(String, Json)> = Vec::new();
    entries.push(member("_n8n_import", object(note)));
    entries.push(member("parameters", params.clone()));
    assert(members(entries@) =~= placeholder(n8n_type@, params@)->Object_0);
    object(entries)
}

/// What an n8n type is mapped as.
pub enum Mapping {
    Condition,
    Switch,
    Merge,
    SplitOut,
    HttpRequest,
    Code,
    Schedule,
    Webhook,
    Manual,
    Unmapped,
}

/// How a type is mapped, by the last part of its name. An `itemLists` node is
/// a split only where that is its operation.
pub open spec fn mapping_of(n8n_type: Seq<char>, params: JsonView) -> Mapping {
    let short = short_type(n8n_type);
    if short == "if"@ {
        Mapping::Condition
    } else if short == "switch"@ {
        Mapping::Switch
    } else if short == "merge"@ {
        Mapping::Merge
    } else if short == "splitOut"@ {
        Mapping::SplitOut
    } else if short == "itemLists"@ {
        if params.text_at("operation"@) == Some("splitOutItems"@) {
            Mapping::SplitOut
        } else {
            Mapping::Unmapped
        }
    } else if short == "httpRequest"@ {
        Mapping::HttpRequest
    } else if short == "code"@ || short == "function"@ || short == "functionItem"@ {
        Mapping::Code
    } else if short == "scheduleTrigger"@ || short == "cron"@ || short == "interval"@ {
        Mapping::Schedule
    } else if short == "webhook"@ {
        Mapping::Webhook
    } else if short == "manualTrigger"@ || short == "start"@ {
        Mapping::Manual
    } else {
        Mapping::Unmapped
    }
}

fn mapping(n8n_type: &str, params: &Json) -> (r: Mapping)
    ensures
        r == mapping_of(n8n_type@, params@),
{
    let name = short_of(n8n_type);
    let short = name.as_str();
    if same(short, "if") {
        Mapping::Condition
    } else if same(short, "switch") {
        Mapping::Switch
    } else if same(short, "merge") {
        Mapping::Merge
    } else if same(short, "splitOut") {
        Mapping::SplitOut
    } else if same(short, "itemLists") {
        match params.text_at("operation") {
            Some(operation) => if same(operation, "splitOutItems") {
                Mapping::SplitOut
            } else {
                Mapping::Unmapped
            },
            None => Mapping::Unmapped,
        }
    } else if same(short, "httpRequest") {
        Mapping::HttpRequest
    } else if same(short, "code") || same(short, "function") || same(short, "functionItem") {
        Mapping::Code
    } else if same(short, "scheduleTrigger") || same(short, "cron") || same(short, "interval") {
        Mapping::Schedule
    } else if same(short, "webhook") {
        Mapping::Webhook
    } else if same(short, "manualTrigger") || same(short, "start") {
        Mapping::Manual
    } else {
        Mapping::Unmapped
    }
}

/// The kind and configuration a node becomes.
pub open spec fn mapped_node(n8n_type: Seq<char>, params: JsonView) -> (NodeKind, JsonView) {
    match mapping_of(n8n_type, params) {
        Mapping::Condition => (NodeKind::Condition, condition_config(params)),
        Mapping::Switch => (NodeKind::Switch, switch_config(params)),
        Mapping::Merge => (NodeKind::Merge, translated(params)),
        Mapping::SplitOut => (NodeKind::SplitOut, split_config(params)),
        Mapping::HttpRequest => http_node(params),
        Mapping::Code => (
            NodeKind::Code,
            JsonView::Object(code_config(params, code_keys().len())),
        ),
        Mapping::Schedule => (NodeKind::Trigger, trigger_settings("schedule"@, params)),
        Mapping::Webhook => (NodeKind::Trigger, trigger_settings("webhook"@, params)),
        Mapping::Manual => (NodeKind::Trigger, trigger_settings("manual"@, params)),
        Mapping::Unmapped => (NodeKind::Transform, placeholder(n8n_type, params)),
    }
}

/// The warnings of a node.
pub open spec fn node_warnings(n8n_type: Seq<char>, params: JsonView, name: Seq<char>) -> Seq<
    Seq<char>,
> {
    match mapping_of(n8n_type, params) {
        Mapping::Condition => config_warnings(params, name) + (if entry(
            config_of(params),
            "field"@,
        ) is Some {
            Seq::empty()
        } else {
            seq![condition_warning(name)]
        }),
        Mapping::Switch => config_warnings(params, name) + (if routes(config_of(params)) {
            Seq::empty()
        } else {
            seq![switch_warning(name)]
        }),
        Mapping::Merge => config_warnings(params, name),
        Mapping::SplitOut => config_warnings(params, name),
        Mapping::HttpRequest => http_warnings(params, name),
        Mapping::Code => code_warnings(params, name),
        Mapping::Schedule => trigger_warnings("schedule"@, params, name),
        Mapping::Webhook => trigger_warnings("webhook"@, params, name),
        Mapping::Manual => trigger_warnings("manual"@, params, name),
        Mapping::Unmapped => seq![unmapped_warning(name, n8n_type)],
    }
}

/// Maps one n8n node.
pub fn map_node(n8n_type: &str, params: &Json, n8n_name: &str, warnings: &mut Vec<String>) -> (r: (
    NodeKind,
    Json,
))
    ensures
        (r.0, r.1@) == mapped_node(n8n_type@, params@),
        views(final(warnings)@) == views(old(warnings)@) + node_warnings(
            n8n_type@,
            params@,
            n8n_name@,
        ),
{
    let ghost before = views(warnings@);
    match mapping(n8n_type, params) {
        Mapping::Condition => {
            let config = map_condition(params, warnings, n8n_name);
            assert(views(warnings@) =~= before + node_warnings(n8n_type@, params@, n8n_name@));
            (NodeKind::Condition, config)
        },
        Mapping::Switch => {
            let config = map_switch(params, warnings, n8n_name);
            assert(views(warnings@) =~= before + node_warnings(n8n_type@, params@, n8n_name@));
            (NodeKind::Switch, config)
        },
        Mapping::Merge => (NodeKind::Merge, translate_config(params, warnings, n8n_name)),
        Mapping::SplitOut => (NodeKind::SplitOut, map_split_out(params, warnings, n8n_name)),
        Mapping::HttpRequest => map_http_request_node(params, warnings, n8n_name),
        Mapping::Code => (NodeKind::Code, map_code(params, warnings, n8n_name)),
        Mapping::Schedule => (
            NodeKind::Trigger,
            trigger_config("schedule", params, warnings, n8n_name),
        ),
        Mapping::Webhook => (
            NodeKind::Trigger,
            trigger_config("webhook", params, warnings, n8n_name),
        ),
        Mapping::Manual => (
            NodeKind::Trigger,
            trigger_config("manual", params, warnings, n8n_name),
        ),
        Mapping::Unmapped => {
            let mut text = " has n8n type '".to_owned();
            text.append(n8n_type);
            text.append(
                "', which has no tinyflows equivalent — imported as an editable placeholder that carries its original configuration. Replace it with a supported node before enabling the flow.",
            );
            warn(warnings, n8n_name, text.as_str());
            assert(views(warnings@) =~= before + node_warnings(n8n_type@, params@, n8n_name@));
            (NodeKind::Transform, placeholder_json(n8n_type, params))
        },
    }
}

/// A node that cannot be mapped is reported and keeps its parameters.
pub proof fn unmapped_nodes_keep_their_parameters(
    n8n_type: Seq<char>,
    params: JsonView,
    name: Seq<char>,
)
    requires
        mapping_of(n8n_type, params) is Unmapped,
    ensures
        mapped_node(n8n_type, params).0 == NodeKind::Transform,
        mapped_node(n8n_type, params).1.at("parameters"@) == params,
        node_warnings(n8n_type, params, name) == seq![unmapped_warning(name, n8n_type)],
{
    reveal_strlit("_n8n_import");
    reveal_strlit("parameters");
    assert("_n8n_import"@[0] == '_' && "parameters"@[0] == 'p');
    let entries = placeholder(n8n_type, params)->Object_0;
    assert(entries.drop_first()[0] == entries[1]);
    reveal_with_fuel(entry, 3);
}

/// A schedule is set or its absence is reported, never guessed.
pub proof fn schedules_are_set_or_reported(params: JsonView, name: Seq<char>)
    ensures
        schedule_of(JsonView::Object(kinded("schedule"@, params))) is None
            ==> trigger_warnings("schedule"@, params, name).contains(schedule_warning(name)),
        schedule_of(JsonView::Object(kinded("schedule"@, params))) matches Some(schedule)
            ==> trigger_settings("schedule"@, params).get("schedule"@) == Some(schedule),
{
    let cfg = kinded("schedule"@, params);
    match schedule_of(JsonView::Object(cfg)) {
        Some(schedule) => {
            crate::json::lemma_set_member_reads_back(cfg, "schedule"@, schedule);
        },
        None => {
            let said = config_warnings(params, name);
            assert(said.push(schedule_warning(name)).last() == schedule_warning(name));
        },
    }
}

} // verus!
