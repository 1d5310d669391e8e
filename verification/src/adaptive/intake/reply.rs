//! Asking a model for one JSON object, and finding it in the reply.
use vstd::prelude::*;

use crate::adaptive::contracts::{tier_text, Tier};
use crate::adaptive::intake::{IntakeError, IntakeErrorView};
use crate::json::{array, member, members, object, text_json, Json, JsonView};
use crate::json_text::{json_text, parse_json, parsed_json, print_json};
use crate::text::{chars_of, opt_view, text_of, trim, trimmed, views};
use vstd::slice::slice_subrange;

verus! {

/// One message of a request.
pub open spec fn message_json(role: Seq<char>, content: Seq<char>) -> JsonView {
    JsonView::Object(
        seq![("role"@, JsonView::String(role)), ("content"@, JsonView::String(content))],
    )
}

/// A request for one JSON object: which job it is, what the model is told, and
/// the hint that an object is wanted.
pub open spec fn request_json(tier: Tier, system: Seq<char>, user: Seq<char>) -> JsonView {
    JsonView::Object(
        seq![
            ("tier"@, JsonView::String(tier_text(tier))),
            (
                "messages"@,
                JsonView::Array(
                    seq![message_json("system"@, system), message_json("user"@, user)],
                ),
            ),
            (
                "response_format"@,
                JsonView::Object(seq![("type"@, JsonView::String("json_object"@))]),
            ),
        ],
    )
}

fn message(role: &str, content: &str) -> (r: Json)
    ensures
        r@ == message_json(role@, content@),
{
    let mut entries: Vec<(String, Json)> = Vec::new();
    entries.push(member("role", text_json(role)));
    entries.push(member("content", text_json(content)));
    assert(members(entries@) =~= message_json(role@, content@)->Object_0);
    object(entries)
}

/// The request that asks a model for one JSON object.
pub fn ask_request(tier: Tier, system: &str, user: &str) -> (r: Json)
    ensures
        r@ == request_json(tier, system@, user@),
{
    let mut messages: Vec<Json> = Vec::new();
    messages.push(message("system", system));
    messages.push(message("user", user));
    assert(views(messages@) =~= seq![
        message_json("system"@, system@),
        message_json("user"@, user@),
    ]);
    let mut format: Vec<(String, Json)> = Vec::new();
    format.push(member("type", text_json("json_object")));
    assert(members(format@) =~= seq![("type"@, JsonView::String("json_object"@))]);
    let mut entries: Vec<(String, Json)> = Vec::new();
    entries.push(member("tier", text_json(tier.as_str())));
    entries.push(member("messages", array(messages)));
    entries.push(member("response_format", object(format)));
    assert(members(entries@) =~= request_json(tier, system@, user@)->Object_0);
    object(entries)
}

/// The reply is the wanted object itself: an object that is neither an
/// envelope of choices nor one with a text.
pub open spec fn is_bare(answer: JsonView) -> bool {
    answer is Object && !(answer.at("choices"@) is Array) && answer.get("text"@) is None
}

/// The text of a reply: the first choice's message, and else its `text`, and
/// else its `content`.
pub open spec fn reply_text(answer: JsonView) -> Option<Seq<char>> {
    match answer.at("choices"@).first().at("message"@).text_at("content"@) {
        Some(text) => Some(text),
        None => match answer.text_at("text"@) {
            Some(text) => Some(text),
            None => answer.text_at("content"@),
        },
    }
}

/// Whether a reply is the wanted object itself.
pub fn bare(answer: &Json) -> (r: bool)
    ensures
        r == is_bare(answer@),
{
    let objectlike = match answer {
        Json::Object(_) => true,
        _ => false,
    };
    let chosen = match answer.get("choices") {
        Some(choices) => match choices {
            Json::Array(_) => true,
            _ => false,
        },
        None => false,
    };
    objectlike && !chosen && answer.get("text").is_none()
}

/// The text of a reply, wherever the host put it.
pub fn text_in(answer: &Json) -> (r: Option<String>)
    ensures
        opt_view(r) == reply_text(answer@),
{
    let choices = answer.at("choices");
    let choice = choices.first();
    let message = choice.at("message");
    match message.text_copy("content") {
        Some(text) => {
            return Some(text);
        },
        None => {},
    }
    match answer.text_copy("text") {
        Some(text) => Some(text),
        None => answer.text_copy("content"),
    }
}

/// `i` is the first place of a character.
pub open spec fn is_first_of(s: Seq<char>, c: char, i: int) -> bool {
    &&& 0 <= i < s.len()
    &&& s[i] == c
    &&& forall|k: int| 0 <= k < i ==> s[k] != c
}

/// `i` is the last place of a character.
pub open spec fn is_last_of(s: Seq<char>, c: char, i: int) -> bool {
    &&& 0 <= i < s.len()
    &&& s[i] == c
    &&& forall|k: int| i < k < s.len() ==> s[k] != c
}

/// The part of a text from its first `{` to its last `}`.
pub open spec fn is_braced(s: Seq<char>, part: Seq<char>) -> bool {
    exists|i: int, j: int|
        #![trigger is_first_of(s, '{', i), is_last_of(s, '}', j)]
        is_first_of(s, '{', i) && is_last_of(s, '}', j) && i <= j && part == s.subrange(i, j + 1)
}

/// The part of a text from its first `{` to its last `}`; nothing where there
/// is no such part.
pub fn braced(text: &str) -> (r: Option<String>)
    ensures
        match r {
            Some(part) => is_braced(text@, part@),
            None => forall|part: Seq<char>| !is_braced(text@, part),
        },
{
    let chars = chars_of(text);
    let mut i: usize = 0;
    while i < chars.len() && chars[i] != '{'
        invariant
            i <= chars@.len(),
            forall|k: int| 0 <= k < i ==> chars@[k] != '{',
        decreases chars@.len() - i,
    {
        i = i + 1;
    }
    let mut j: usize = chars.len();
    while j > 0 && chars[j - 1] != '}'
        invariant
            j <= chars@.len(),
            forall|k: int| j <= k < chars@.len() ==> chars@[k] != '}',
        decreases j,
    {
        j = j - 1;
    }
    if i < chars.len() && i < j {
        let part = text_of(slice_subrange(chars.as_slice(), i, j));
        assert(is_first_of(text@, '{', i as int));
        assert(is_last_of(text@, '}', j - 1));
        assert(part@ =~= text@.subrange(i as int, (j - 1) + 1));
        Some(part)
    } else {
        None
    }
}

/// What was parsed is an object.
pub open spec fn is_object(parsed: Option<JsonView>) -> bool {
    parsed matches Some(value) && value is Object
}

/// The one object a text and its braced part are read as: the whole text where
/// it is an object, and else its braced part.
pub open spec fn read_as(text: Seq<char>, value: JsonView) -> bool {
    &&& value is Object
    &&& {
        ||| parsed_json(trimmed(text)) == Some(value)
        ||| !is_object(parsed_json(trimmed(text))) && exists|part: Seq<char>| #[trigger]
            is_braced(text, part) && parsed_json(part) == Some(value)
    }
}

/// The object among what a whole text and its braced part were parsed as.
pub open spec fn object_among(whole: Option<JsonView>, part: Option<JsonView>) -> Option<JsonView> {
    if is_object(whole) {
        whole
    } else if is_object(part) {
        part
    } else {
        None
    }
}

fn holds_object(parsed: &Option<Json>) -> (r: bool)
    ensures
        r == is_object(opt_view(*parsed)),
{
    match parsed {
        Some(value) => match value {
            Json::Object(_) => true,
            _ => false,
        },
        None => false,
    }
}

/// The object among what a whole text and its braced part were parsed as; the
/// whole text comes first.
pub fn first_object(whole: Option<Json>, part: Option<Json>) -> (r: Option<Json>)
    ensures
        opt_view(r) == object_among(opt_view(whole), opt_view(part)),
{
    if holds_object(&whole) {
        whole
    } else if holds_object(&part) {
        part
    } else {
        None
    }
}

/// A JSON object out of a text that may have prose around it.
pub fn from_text(text: &str) -> (r: Option<Json>)
    ensures
        match r {
            Some(value) => read_as(text@, value@),
            None => forall|value: JsonView| !read_as(text@, value),
        },
{
    let whole = parse_json(trim(text).as_str());
    let found = braced(text);
    let part = match &found {
        Some(inner) => parse_json(inner.as_str()),
        None => None,
    };
    proof {
        if let Some(inner) = found {
            assert(is_braced(text@, inner@));
            assert forall|other: Seq<char>| #[trigger] is_braced(text@, other) implies other
                == inner@ by {
                lemma_braced_is_one(text@, inner@, other);
            }
        }
    }
    first_object(whole, part)
}

proof fn lemma_braced_is_one(s: Seq<char>, a: Seq<char>, b: Seq<char>)
    requires
        is_braced(s, a),
        is_braced(s, b),
    ensures
        a == b,
{
    let (i, j) = choose|i: int, j: int|
        #![trigger is_first_of(s, '{', i), is_last_of(s, '}', j)]
        is_first_of(s, '{', i) && is_last_of(s, '}', j) && i <= j && a == s.subrange(i, j + 1);
    let (k, l) = choose|i: int, j: int|
        #![trigger is_first_of(s, '{', i), is_last_of(s, '}', j)]
        is_first_of(s, '{', i) && is_last_of(s, '}', j) && i <= j && b == s.subrange(i, j + 1);
    assert(i == k) by {
        if i < k {
            assert(s[i] != '{');
        }
    }
    assert(j == l) by {
        if l < j {
            assert(s[j] != '}');
        }
    }
}

/// The object found in a reply.
pub open spec fn found_in(answer: JsonView, value: JsonView) -> bool {
    if is_bare(answer) {
        value == answer
    } else {
        reply_text(answer) matches Some(text) && read_as(text, value)
    }
}

/// The JSON object inside a completion, wherever the host put it.
pub fn extract(answer: &Json) -> (r: Option<Json>)
    ensures
        match r {
            Some(value) => found_in(answer@, value@),
            None => forall|value: JsonView| !found_in(answer@, value),
        },
{
    if bare(answer) {
        return Some(answer.clone());
    }
    match text_in(answer) {
        Some(text) => from_text(text.as_str()),
        None => None,
    }
}

/// How many bytes a character takes in UTF-8.
pub open spec fn char_bytes(c: char) -> nat {
    let n = c as u32;
    if n < 0x80 {
        1
    } else if n < 0x800 {
        2
    } else if n < 0x10000 {
        3
    } else {
        4
    }
}

/// The longest part of a text from its front that takes at most so many bytes.
pub open spec fn clipped(s: Seq<char>, bytes: nat) -> Seq<char>
    decreases s.len(),
{
    if s.len() == 0 || char_bytes(s[0]) > bytes {
        Seq::empty()
    } else {
        seq![s[0]] + clipped(s.drop_first(), (bytes - char_bytes(s[0])) as nat)
    }
}

/// Clips a text to so many bytes, never in the middle of a character.
pub fn clip(text: &str, bytes: usize) -> (r: String)
    ensures
        r@ == clipped(text@, bytes as nat),
{
    let chars = chars_of(text);
    let mut kept = String::new();
    let mut left: usize = bytes;
    let mut i: usize = 0;
    assert(chars@.skip(0) =~= text@);
    assert(kept@ + clipped(text@, left as nat) =~= clipped(text@, bytes as nat));
    while i < chars.len()
        invariant
            i <= chars@.len(),
            kept@ + clipped(chars@.skip(i as int), left as nat) == clipped(text@, bytes as nat),
        decreases chars@.len() - i,
    {
        let ghost rest = chars@.skip(i as int);
        let c = chars[i];
        assert(rest[0] == c);
        let n: u32 = c as u32;
        let size: usize = if n < 0x80 {
            1
        } else if n < 0x800 {
            2
        } else if n < 0x10000 {
            3
        } else {
            4
        };
        if size > left {
            assert(kept@ =~= clipped(text@, bytes as nat));
            return kept;
        }
        let ghost before = kept@;
        kept.push(c);
        assert(rest.drop_first() =~= chars@.skip(i + 1));
        assert(kept@ + clipped(chars@.skip(i + 1), (left - size) as nat) =~= before + clipped(
            rest,
            left as nat,
        ));
        left = left - size;
        i = i + 1;
    }
    assert(chars@.skip(i as int) =~= Seq::empty());
    assert(kept@ =~= clipped(text@, bytes as nat));
    kept
}

/// The beginning of a value's text, for an error message.
pub fn peek(value: &Json) -> (r: String)
    ensures
        r@ == clipped(json_text(value@), 200),
{
    let text = print_json(value);
    clip(text.as_str(), 200)
}

/// The error of a reply that holds no JSON object.
pub open spec fn nothing_found(answer: JsonView) -> IntakeErrorView {
    IntakeErrorView::Inference("no JSON object in the reply: "@ + clipped(json_text(answer), 200))
}

/// The object a reply holds, or the error that it holds none.
pub fn read_reply(answer: &Json) -> (r: Result<Json, IntakeError>)
    ensures
        match r {
            Ok(value) => found_in(answer@, value@),
            Err(error) => error@ == nothing_found(answer@) && (forall|value: JsonView|
                !found_in(answer@, value)),
        },
{
    match extract(answer) {
        Some(value) => Ok(value),
        None => {
            let mut text = "no JSON object in the reply: ".to_owned();
            let shown = peek(answer);
            text.append(shown.as_str());
            Err(IntakeError::Inference(text))
        },
    }
}

/// A reply is read as at most one value, and that is an object.
pub proof fn replies_are_read_one_way(answer: JsonView, a: JsonView, b: JsonView)
    requires
        found_in(answer, a),
        found_in(answer, b),
    ensures
        a == b,
        a is Object,
{
    if !is_bare(answer) {
        let text = reply_text(answer)->0;
        if !is_object(parsed_json(trimmed(text))) {
            let p = choose|part: Seq<char>| #[trigger]
                is_braced(text, part) && parsed_json(part) == Some(a);
            let q = choose|part: Seq<char>| #[trigger]
                is_braced(text, part) && parsed_json(part) == Some(b);
            lemma_braced_is_one(text, p, q);
        }
    }
}

/// What is quoted of a reply is a front part of it, and fits the bound.
pub proof fn clipping_keeps_a_front_part(s: Seq<char>, bytes: nat)
    ensures
        clipped(s, bytes).is_prefix_of(s),
        clipped(s, bytes).len() <= bytes,
    decreases s.len(),
{
    if s.len() > 0 && char_bytes(s[0]) <= bytes {
        let rest = (bytes - char_bytes(s[0])) as nat;
        clipping_keeps_a_front_part(s.drop_first(), rest);
        let kept = clipped(s.drop_first(), rest);
        assert(seq![s[0]] + kept =~= s.take((kept.len() + 1) as int)) by {
            assert(kept =~= s.drop_first().take(kept.len() as int));
        }
    }
}

} // verus!
