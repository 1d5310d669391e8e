//! Evidence of a run, held to a size.
//!
//! A value that is printed in more bytes than its budget allows is replaced,
//! as a whole, by the front part of its text. That is why evidence is bounded
//! node by node and never as one map.
use vstd::prelude::*;

use crate::adaptive::intake::reply::{char_bytes, clip, clipped};
use crate::json::{member, members, object, Json, JsonView};
use crate::json_text::{json_text, print_json};
use crate::text::chars_of;

verus! {

/// How many bytes a text takes in UTF-8.
pub open spec fn text_bytes(s: Seq<char>) -> nat
    decreases s.len(),
{
    if s.len() == 0 {
        0
    } else {
        text_bytes(s.drop_last()) + char_bytes(s.last())
    }
}

/// Whether a text fits into so many bytes.
pub fn fits(text: &str, bytes: usize) -> (r: bool)
    ensures
        r == (text_bytes(text@) <= bytes),
{
    let chars = chars_of(text);
    let ghost all = chars@;
    let mut used: usize = 0;
    let mut i: usize = 0;
    assert(all.take(0) =~= Seq::empty());
    while i < chars.len()
        invariant
            i <= chars@.len(),
            all == chars@,
            all == text@,
            used == text_bytes(all.take(i as int)),
            used <= bytes,
        decreases chars@.len() - i,
    {
        let n: u32 = chars[i] as u32;
        let size: usize = if n < 0x80 {
            1
        } else if n < 0x800 {
            2
        } else if n < 0x10000 {
            3
        } else {
            4
        };
        assert(all.take(i + 1).drop_last() =~= all.take(i as int));
        assert(all.take(i + 1).last() == chars@[i as int]);
        if size > bytes - used {
            proof {
                lemma_text_bytes(all, i + 1);
                assert(all.take(all.len() as int) =~= all);
            }
            return false;
        }
        used = used + size;
        i = i + 1;
    }
    assert(all.take(all.len() as int) =~= all);
    true
}

proof fn lemma_text_bytes(s: Seq<char>, n: int)
    requires
        0 <= n <= s.len(),
    ensures
        text_bytes(s.take(n)) <= text_bytes(s),
    decreases s.len() - n,
{
    if n < s.len() {
        assert(s.take(n + 1).drop_last() =~= s.take(n));
        lemma_text_bytes(s, n + 1);
    } else {
        assert(s.take(n) =~= s);
    }
}

/// The stand-in for a value that is too large: that it was cut, and the front
/// part of its text.
pub open spec fn preview(text: Seq<char>, budget: nat) -> JsonView {
    JsonView::Object(
        seq![
            ("truncated"@, JsonView::Bool(true)),
            ("preview"@, JsonView::String(clipped(text, budget))),
        ],
    )
}

/// A value held to a budget: itself where its text fits, and else a preview.
pub open spec fn bounded(value: JsonView, budget: nat) -> JsonView {
    if text_bytes(json_text(value)) <= budget {
        value
    } else {
        preview(json_text(value), budget)
    }
}

/// What a value whose text is known becomes under a budget.
pub fn bound_text(value: &Json, text: &str, budget: usize) -> (r: Json)
    ensures
        r@ == (if text_bytes(text@) <= budget {
            value@
        } else {
            preview(text@, budget as nat)
        }),
{
    if fits(text, budget) {
        return value.clone();
    }
    let mut entries: Vec<(String, Json)> = Vec::new();
    entries.push(member("truncated", Json::Bool(true)));
    entries.push(member("preview", Json::String(clip(text, budget))));
    assert(members(entries@) =~= preview(text@, budget as nat)->Object_0);
    object(entries)
}

/// Holds a value to a budget of bytes.
pub fn bounded_within(value: &Json, budget: usize) -> (r: Json)
    ensures
        r@ == bounded(value@, budget as nat),
{
    let text = print_json(value);
    bound_text(value, text.as_str(), budget)
}

/// The value stands in for one that was too large.
pub open spec fn is_cut(value: JsonView) -> bool {
    value.get("truncated"@) == Some(JsonView::Bool(true))
}

/// Whether a value stands in for one that was too large.
pub fn is_truncated(value: &Json) -> (r: bool)
    ensures
        r == is_cut(value@),
{
    match value.get("truncated") {
        Some(Json::Bool(cut)) => *cut,
        _ => false,
    }
}

/// What is too large says so.
pub proof fn previews_say_they_are_cut(value: JsonView, budget: nat)
    requires
        text_bytes(json_text(value)) > budget,
    ensures
        is_cut(bounded(value, budget)),
{
    let entries = bounded(value, budget)->Object_0;
    assert(entries[0].0 == "truncated"@);
}

/// What fits is not touched.
pub proof fn small_values_are_kept(value: JsonView, budget: nat)
    requires
        text_bytes(json_text(value)) <= budget,
    ensures
        bounded(value, budget) == value,
{
}

} // verus!
