//! n8n expressions as jq.
//!
//! n8n's `$json` is the current item, which expressions see as `item`. A plain
//! path from it is rewritten; anything else is left as it is, with a warning.
use vstd::prelude::*;

use crate::adaptive::intake::recipe::{jq_quote, jq_quoted};
use crate::json::{array, members, object, Json, JsonView};
use crate::model::graph::{addressable, is_name_char, is_name_start, is_valid_input_name};
use crate::text::{
    after_prefix, before_any, begins_with, chars_of, ends_in, holds_text, occurs_in, opt_view,
    strip_front, text_of, trim, trimmed, until_any, views,
};
use vstd::slice::slice_subrange;

verus! {

/// A key in jq's dotted form: bare where it is an identifier, quoted otherwise.
pub open spec fn field_of(key: Seq<char>) -> Seq<char> {
    if addressable(key) {
        key
    } else {
        jq_quoted(key)
    }
}

/// A key in jq's dotted form: bare where it is an identifier, quoted otherwise.
pub fn jq_field(key: &str) -> (r: String)
    ensures
        r@ == field_of(key@),
{
    if is_valid_input_name(key) {
        key.to_owned()
    } else {
        jq_quote(key)
    }
}

/// The run of identifier characters at the front.
pub open spec fn name_len(s: Seq<char>) -> nat
    decreases s.len(),
{
    if s.len() > 0 && is_name_char(s[0]) {
        name_len(s.drop_first()) + 1
    } else {
        0
    }
}

pub proof fn lemma_name_len(s: Seq<char>)
    ensures
        name_len(s) <= s.len(),
    decreases s.len(),
{
    if s.len() > 0 && is_name_char(s[0]) {
        lemma_name_len(s.drop_first());
    }
}

/// The key of a `["…"]` step, after its opening quote.
pub open spec fn key_of(s: Seq<char>, quote: char) -> Seq<char> {
    before_any(s, seq![quote])
}

pub proof fn lemma_before_any(s: Seq<char>, stops: Seq<char>)
    ensures
        before_any(s, stops).len() <= s.len(),
        before_any(s, stops) == s.take(before_any(s, stops).len() as int),
    decreases s.len(),
{
    if s.len() > 0 && !stops.contains(s[0]) {
        let rest = s.drop_first();
        lemma_before_any(rest, stops);
        let n = before_any(rest, stops).len();
        assert(seq![s[0]] + rest.take(n as int) =~= s.take((n + 1) as int));
    } else {
        assert(s.take(0) =~= Seq::empty());
    }
}

/// The jq form of the steps of a path: `.name`, `["key"]` and `['key']`, one
/// after the other up to the end. A key with a backslash is not read.
pub open spec fn jq_steps(s: Seq<char>) -> Option<Seq<char>>
    decreases s.len(),
{
    if s.len() == 0 {
        Some(Seq::empty())
    } else if s[0] == '.' {
        let rest = s.skip(1);
        let n = name_len(rest);
        proof {
            lemma_name_len(rest);
        }
        if n > 0 && is_name_start(rest[0]) {
            match jq_steps(rest.skip(n as int)) {
                Some(more) => Some(seq!['.'] + field_of(rest.take(n as int)) + more),
                None => None,
            }
        } else {
            None
        }
    } else if s.len() > 1 && s[0] == '[' && (s[1] == '"' || s[1] == '\'') {
        let inner = s.skip(2);
        let key = key_of(inner, s[1]);
        let after = inner.skip(key.len() as int);
        proof {
            lemma_before_any(inner, seq![s[1]]);
        }
        if !key.contains('\\') && after.len() >= 2 && after[0] == s[1] && after[1] == ']' {
            match jq_steps(after.skip(2)) {
                Some(more) => Some(seq!['.'] + field_of(key) + more),
                None => None,
            }
        } else {
            None
        }
    } else {
        None
    }
}

fn name_run(chars: &Vec<char>, from: usize) -> (end: usize)
    requires
        from <= chars@.len(),
    ensures
        from <= end <= chars@.len(),
        end - from == name_len(chars@.skip(from as int)),
{
    let mut i: usize = from;
    let ghost all = name_len(chars@.skip(from as int));
    while i < chars.len() && is_name(chars[i])
        invariant
            from <= i <= chars@.len(),
            all == (i - from) + name_len(chars@.skip(i as int)),
        decreases chars@.len() - i,
    {
        assert(chars@.skip(i as int).drop_first() =~= chars@.skip(i + 1));
        i = i + 1;
    }
    i
}

fn is_name(c: char) -> (r: bool)
    ensures
        r == is_name_char(c),
{
    ('a' <= c && c <= 'z') || ('A' <= c && c <= 'Z') || c == '_' || ('0' <= c && c <= '9')
}

fn steps_from(chars: &Vec<char>, from: usize) -> (r: Option<String>)
    requires
        from <= chars@.len(),
    ensures
        opt_view(r) == jq_steps(chars@.skip(from as int)),
    decreases chars@.len() - from,
{
    let ghost s = chars@.skip(from as int);
    if from >= chars.len() {
        let done = String::new();
        assert(done@ =~= Seq::empty());
        return Some(done);
    }
    let c = chars[from];
    if c == '.' {
        let ghost rest = s.skip(1);
        assert(rest =~= chars@.skip(from + 1));
        let end: usize = name_run(chars, from + 1);
        let first = from + 1;
        if end > first && is_name(chars[first]) && !('0' <= chars[first] && chars[first] <= '9') {
            assert(rest[0] == chars@[first as int]);
            let ghost n = name_len(rest);
            assert(rest.skip(n as int) =~= chars@.skip(end as int));
            let name = text_of(slice_subrange(chars.as_slice(), first, end));
            assert(name@ =~= rest.take(n as int));
            match steps_from(chars, end) {
                Some(more) => {
                    let mut text = String::new();
                    text.push('.');
                    let field = jq_field(name.as_str());
                    text.append(field.as_str());
                    text.append(more.as_str());
                    assert(text@ =~= seq!['.'] + field_of(name@) + more@);
                    Some(text)
                },
                None => None,
            }
        } else {
            assert(end > first ==> rest[0] == chars@[first as int]);
            None
        }
    } else if c == '[' && from + 1 < chars.len() && (chars[from + 1] == '"' || chars[from + 1]
        == '\'') {
        let quote = chars[from + 1];
        let ghost inner = s.skip(2);
        assert(inner =~= chars@.skip(from + 2));
        let tail = text_of(slice_subrange(chars.as_slice(), from + 2, chars.len()));
        assert(tail@ =~= inner);
        let stops = [quote];
        assert(stops@ =~= seq![quote]);
        let key = until_any(tail.as_str(), &stops);
        proof {
            lemma_before_any(inner, seq![quote]);
        }
        let key_chars = chars_of(key.as_str());
        let ghost after = inner.skip(key@.len() as int);
        let close: usize = from + 2 + key_chars.len();
        assert(after =~= chars@.skip(close as int));
        if chars.len() - close >= 2 && chars[close] == quote && chars[close + 1] == ']'
            && !holds_char(&key_chars, '\\') {
            assert(after.skip(2) =~= chars@.skip(close + 2));
            match steps_from(chars, close + 2) {
                Some(more) => {
                    let mut text = String::new();
                    text.push('.');
                    let field = jq_field(key.as_str());
                    text.append(field.as_str());
                    text.append(more.as_str());
                    assert(text@ =~= seq!['.'] + field_of(key@) + more@);
                    Some(text)
                },
                None => None,
            }
        } else {
            None
        }
    } else {
        None
    }
}

fn holds_char(chars: &Vec<char>, c: char) -> (r: bool)
    ensures
        r == chars@.contains(c),
{
    let mut i: usize = 0;
    while i < chars.len()
        invariant
            i <= chars@.len(),
            forall|k: int| 0 <= k < i ==> chars@[k] != c,
        decreases chars@.len() - i,
    {
        if chars[i] == c {
            return true;
        }
        i = i + 1;
    }
    false
}

/// The text is an n8n expression: it begins with `=` and holds a `{{`.
pub open spec fn is_expression(raw: Seq<char>) -> bool {
    "="@.is_prefix_of(raw) && occurs_in(raw, "{{"@)
}

/// The inside of an expression that is a single `={{ … }}`.
pub open spec fn expression_inside(raw: Seq<char>) -> Option<Seq<char>> {
    match after_prefix(trimmed(raw), "={{"@) {
        Some(rest) => if "}}"@.is_suffix_of(rest) {
            Some(trimmed(rest.take(rest.len() - "}}"@.len())))
        } else {
            None
        },
        None => None,
    }
}

/// The jq form of an expression that is a plain path from `$json`.
pub open spec fn jq_form(raw: Seq<char>) -> Option<Seq<char>> {
    match expression_inside(raw) {
        Some(inside) => match after_prefix(inside, "$json"@) {
            Some(path) => match jq_steps(path) {
                Some(steps) => Some("=.item"@ + steps),
                None => None,
            },
            None => None,
        },
        None => None,
    }
}

fn inside_of(raw: &str) -> (r: Option<String>)
    ensures
        opt_view(r) == expression_inside(raw@),
{
    let whole = trim(raw);
    match strip_front(whole.as_str(), "={{") {
        Some(rest) => {
            if ends_in(rest.as_str(), "}}") {
                let chars = chars_of(rest.as_str());
                proof {
                    reveal_strlit("}}");
                    assert("}}"@.len() == 2);
                }
                let bare = text_of(slice_subrange(chars.as_slice(), 0, chars.len() - 2));
                assert(bare@ =~= rest@.take(rest@.len() - "}}"@.len()));
                Some(trim(bare.as_str()))
            } else {
                None
            }
        },
        None => None,
    }
}

fn to_jq(raw: &str) -> (r: Option<String>)
    ensures
        opt_view(r) == jq_form(raw@),
{
    match inside_of(raw) {
        Some(inside) => match strip_front(inside.as_str(), "$json") {
            Some(path) => {
                let chars = chars_of(path.as_str());
                assert(chars@.skip(0) =~= path@);
                match steps_from(&chars, 0) {
                    Some(steps) => {
                        let mut text = "=.item".to_owned();
                        text.append(steps.as_str());
                        Some(text)
                    },
                    None => None,
                }
            },
            None => None,
        },
        None => None,
    }
}

/// What a text becomes: its jq form where it is an expression that has one, and
/// else itself.
pub open spec fn translated_text(raw: Seq<char>) -> Seq<char> {
    if is_expression(raw) && jq_form(raw) is Some {
        jq_form(raw)->0
    } else {
        raw
    }
}

/// The text is an expression that has no jq form.
pub open spec fn is_left_raw(raw: Seq<char>) -> bool {
    is_expression(raw) && jq_form(raw) is None
}

/// What is said of an expression that is left as it is.
pub open spec fn raw_warning(raw: Seq<char>, node: Seq<char>) -> Seq<char> {
    "Node '"@ + node + "' uses an n8n expression that was not automatically translated: "@ + raw
}

/// The warnings a text gives rise to.
pub open spec fn text_warnings(raw: Seq<char>, node: Seq<char>) -> Seq<Seq<char>> {
    if is_left_raw(raw) {
        seq![raw_warning(raw, node)]
    } else {
        Seq::empty()
    }
}

/// Translates one text, recording a warning where an expression is left as it
/// is.
pub fn translate_expr(raw: &str, warnings: &mut Vec<String>, n8n_name: &str) -> (r: String)
    ensures
        r@ == translated_text(raw@),
        views(final(warnings)@) == views(old(warnings)@) + text_warnings(raw@, n8n_name@),
{
    if !(begins_with(raw, "=") && holds_text(raw, "{{")) {
        assert(views(warnings@) =~= views(old(warnings)@) + text_warnings(raw@, n8n_name@));
        return raw.to_owned();
    }
    match to_jq(raw) {
        Some(text) => {
            assert(views(warnings@) =~= views(old(warnings)@) + text_warnings(raw@, n8n_name@));
            text
        },
        None => {
            let mut warning = "Node '".to_owned();
            warning.append(n8n_name);
            warning.append("' uses an n8n expression that was not automatically translated: ");
            warning.append(raw);
            warnings.push(warning);
            assert(views(warnings@) =~= views(old(warnings)@) + text_warnings(raw@, n8n_name@));
            raw.to_owned()
        },
    }
}

/// A configuration with each of its texts translated.
pub open spec fn translated(value: JsonView) -> JsonView
    decreases value,
{
    match value {
        JsonView::String(text) => JsonView::String(translated_text(text)),
        JsonView::Array(items) => JsonView::Array(
            Seq::new(
                items.len(),
                |i: int|
                    if 0 <= i < items.len() {
                        translated(items[i])
                    } else {
                        JsonView::Null
                    },
            ),
        ),
        JsonView::Object(entries) => JsonView::Object(
            Seq::new(
                entries.len(),
                |i: int|
                    if 0 <= i < entries.len() {
                        (entries[i].0, translated(entries[i].1))
                    } else {
                        (Seq::<char>::empty(), JsonView::Null)
                    },
            ),
        ),
        _ => value,
    }
}

/// The warnings a configuration gives rise to, in the order of its texts.
pub open spec fn config_warnings(value: JsonView, node: Seq<char>) -> Seq<Seq<char>>
    decreases value, 0nat,
{
    match value {
        JsonView::String(text) => text_warnings(text, node),
        JsonView::Array(items) => items_warnings(items, items.len(), node),
        JsonView::Object(entries) => entries_warnings(entries, entries.len(), node),
        _ => Seq::empty(),
    }
}

/// The warnings of the first `n` items.
pub open spec fn items_warnings(items: Seq<JsonView>, n: nat, node: Seq<char>) -> Seq<Seq<char>>
    decreases items, n,
{
    if n == 0 || n > items.len() {
        Seq::empty()
    } else {
        items_warnings(items, (n - 1) as nat, node) + config_warnings(items[n - 1], node)
    }
}

/// The warnings of the first `n` members.
pub open spec fn entries_warnings(
    entries: Seq<(Seq<char>, JsonView)>,
    n: nat,
    node: Seq<char>,
) -> Seq<Seq<char>>
    decreases entries, n,
{
    if n == 0 || n > entries.len() {
        Seq::empty()
    } else {
        entries_warnings(entries, (n - 1) as nat, node) + config_warnings(entries[n - 1].1, node)
    }
}

/// Translates every text of a configuration.
pub fn translate_config(value: &Json, warnings: &mut Vec<String>, n8n_name: &str) -> (r: Json)
    ensures
        r@ == translated(value@),
        views(final(warnings)@) == views(old(warnings)@) + config_warnings(value@, n8n_name@),
    decreases *value,
{
    let ghost before = views(warnings@);
    match value {
        Json::String(text) => Json::String(translate_expr(text.as_str(), warnings, n8n_name)),
        Json::Array(items) => {
            let ghost all = value@->Array_0;
            let mut copies: Vec<Json> = Vec::new();
            let mut i: usize = 0;
            assert(views(warnings@) =~= before + items_warnings(all, 0, n8n_name@));
            while i < items.len()
                invariant
                    i <= items.len(),
                    *value == Json::Array(*items),
                    all == value@->Array_0,
                    all.len() == items@.len(),
                    before == views(old(warnings)@),
                    copies@.len() == i,
                    forall|k: int| 0 <= k < i ==> (#[trigger] copies@[k])@ == translated(all[k]),
                    views(warnings@) == before + items_warnings(all, i as nat, n8n_name@),
                decreases items.len() - i,
            {
                assert(decreases_to!(*value => value->Array_0));
                assert(decreases_to!(*items => items@));
                assert(decreases_to!(items@ => items@[i as int]));
                assert(all[i as int] == items@[i as int]@);
                let copy = translate_config(&items[i], warnings, n8n_name);
                copies.push(copy);
                i = i + 1;
                assert(views(warnings@) =~= before + items_warnings(all, i as nat, n8n_name@));
            }
            let r = array(copies);
            assert(r@->Array_0 =~= translated(value@)->Array_0);
            r
        },
        Json::Object(entries) => {
            let ghost all = value@->Object_0;
            let mut copies: Vec<(String, Json)> = Vec::new();
            let mut i: usize = 0;
            assert(views(warnings@) =~= before + entries_warnings(all, 0, n8n_name@));
            while i < entries.len()
                invariant
                    i <= entries.len(),
                    *value == Json::Object(*entries),
                    all == value@->Object_0,
                    all.len() == entries@.len(),
                    before == views(old(warnings)@),
                    copies@.len() == i,
                    forall|k: int|
                        0 <= k < i ==> (#[trigger] copies@[k]).0@ == all[k].0 && copies@[k].1@
                            == translated(all[k].1),
                    views(warnings@) == before + entries_warnings(all, i as nat, n8n_name@),
                decreases entries.len() - i,
            {
                assert(decreases_to!(*value => value->Object_0));
                assert(decreases_to!(*entries => entries@));
                assert(decreases_to!(entries@ => entries@[i as int]));
                assert(decreases_to!(entries@[i as int] => entries@[i as int].1));
                assert(all[i as int] == (entries@[i as int].0@, entries@[i as int].1@));
                let copy = translate_config(&entries[i].1, warnings, n8n_name);
                copies.push((entries[i].0.clone(), copy));
                i = i + 1;
                assert(views(warnings@) =~= before + entries_warnings(all, i as nat, n8n_name@));
            }
            let r = object(copies);
            assert(r@->Object_0 =~= translated(value@)->Object_0);
            r
        },
        _ => {
            assert(views(warnings@) =~= before + config_warnings(value@, n8n_name@));
            value.clone()
        },
    }
}

/// A text that is no expression is left alone, in silence.
pub proof fn plain_texts_pass_through(raw: Seq<char>, node: Seq<char>)
    requires
        !is_expression(raw),
    ensures
        translated_text(raw) == raw,
        text_warnings(raw, node) == Seq::<Seq<char>>::empty(),
{
}

/// No expression is lost in silence: it becomes a path from the current item,
/// or it is kept as it is and a warning names it.
pub proof fn expressions_are_translated_or_reported(raw: Seq<char>, node: Seq<char>)
    requires
        is_expression(raw),
    ensures
        "=.item"@.is_prefix_of(translated_text(raw)) || (translated_text(raw) == raw
            && text_warnings(raw, node) == seq![raw_warning(raw, node)]),
{
}

} // verus!
