//! JSON values: what node configuration, run state and model replies are made of.
//!
//! Objects keep their keys in insertion order. Text is read and written by
//! `serde_json`.
use vstd::prelude::*;

use crate::text::{opt_str, opt_view, same, views};

verus! {

/// A JSON number. Integers are held exactly; any other number is held as the
/// text `serde_json` prints for it.
#[derive(Debug, PartialEq, Eq)]
pub enum Number {
    PosInt(u64),
    NegInt(i64),
    Float(String),
}

/// A JSON value.
#[derive(Debug, PartialEq, Eq)]
pub enum Json {
    Null,
    Bool(bool),
    Number(Number),
    String(String),
    Array(Vec<Json>),
    Object(Vec<(String, Json)>),
}

#[verifier::ext_equal]
pub enum NumberView {
    PosInt(u64),
    NegInt(i64),
    Float(Seq<char>),
}

/// The mathematical value of a [`Json`].
#[verifier::ext_equal]
pub enum JsonView {
    Null,
    Bool(bool),
    Number(NumberView),
    String(Seq<char>),
    Array(Seq<JsonView>),
    Object(Seq<(Seq<char>, JsonView)>),
}

impl View for Number {
    type V = NumberView;

    open spec fn view(&self) -> NumberView {
        match *self {
            Number::PosInt(n) => NumberView::PosInt(n),
            Number::NegInt(n) => NumberView::NegInt(n),
            Number::Float(text) => NumberView::Float(text@),
        }
    }
}

impl Json {
    /// The value this JSON stands for.
    pub open spec fn value(self) -> JsonView
        decreases self,
    {
        match self {
            Json::Null => JsonView::Null,
            Json::Bool(b) => JsonView::Bool(b),
            Json::Number(n) => JsonView::Number(n@),
            Json::String(s) => JsonView::String(s@),
            Json::Array(items) => JsonView::Array(
                Seq::new(
                    items@.len(),
                    |i: int|
                        if 0 <= i < items@.len() {
                            items@[i].value()
                        } else {
                            JsonView::Null
                        },
                ),
            ),
            Json::Object(entries) => JsonView::Object(
                Seq::new(
                    entries@.len(),
                    |i: int|
                        if 0 <= i < entries@.len() {
                            (entries@[i].0@, entries@[i].1.value())
                        } else {
                            (Seq::<char>::empty(), JsonView::Null)
                        },
                ),
            ),
        }
    }
}

impl View for Json {
    type V = JsonView;

    open spec fn view(&self) -> JsonView {
        self.value()
    }
}

/// The members of an object, as values.
pub open spec fn members(entries: Seq<(String, Json)>) -> Seq<(Seq<char>, JsonView)> {
    Seq::new(entries.len(), |i: int| (entries[i].0@, entries[i].1@))
}

/// An object holds the members of its entries.
pub proof fn lemma_object(entries: Vec<(String, Json)>)
    ensures
        Json::Object(entries)@ == JsonView::Object(members(entries@)),
{
    assert(Json::Object(entries)@->Object_0 =~= members(entries@));
}

/// An array holds the values of its items.
pub proof fn lemma_array(items: Vec<Json>)
    ensures
        Json::Array(items)@ == JsonView::Array(views(items@)),
{
    assert(Json::Array(items)@->Array_0 =~= views(items@));
}

/// The value of the first entry under `key`.
pub open spec fn entry(entries: Seq<(Seq<char>, JsonView)>, key: Seq<char>) -> Option<JsonView>
    decreases entries.len(),
{
    if entries.len() == 0 {
        None
    } else if entries[0].0 == key {
        Some(entries[0].1)
    } else {
        entry(entries.drop_first(), key)
    }
}

impl JsonView {
    /// The member `key` of an object; nothing for any other value.
    pub open spec fn get(self, key: Seq<char>) -> Option<JsonView> {
        match self {
            JsonView::Object(entries) => entry(entries, key),
            _ => None,
        }
    }

    /// The member `key` of an object, and `null` where there is none.
    pub open spec fn at(self, key: Seq<char>) -> JsonView {
        match self.get(key) {
            Some(value) => value,
            None => JsonView::Null,
        }
    }

    /// The text under `key`, and the empty text where there is none.
    pub open spec fn text_or_empty(self, key: Seq<char>) -> Seq<char> {
        match self.text_at(key) {
            Some(text) => text,
            None => Seq::empty(),
        }
    }

    pub open spec fn as_bool(self) -> Option<bool> {
        match self {
            JsonView::Bool(b) => Some(b),
            _ => None,
        }
    }

    pub open spec fn as_array(self) -> Option<Seq<JsonView>> {
        match self {
            JsonView::Array(items) => Some(items),
            _ => None,
        }
    }

    /// The members of an object.
    pub open spec fn as_object(self) -> Option<Seq<(Seq<char>, JsonView)>> {
        match self {
            JsonView::Object(entries) => Some(entries),
            _ => None,
        }
    }

    pub open spec fn as_str(self) -> Option<Seq<char>> {
        match self {
            JsonView::String(s) => Some(s),
            _ => None,
        }
    }

    /// The number, where it is a non-negative integer.
    pub open spec fn as_u64(self) -> Option<u64> {
        match self {
            JsonView::Number(NumberView::PosInt(n)) => Some(n),
            _ => None,
        }
    }

    /// The text under `key`, where there is one.
    pub open spec fn text_at(self, key: Seq<char>) -> Option<Seq<char>> {
        match self.get(key) {
            Some(value) => value.as_str(),
            None => None,
        }
    }

    /// The first item of an array, and `null` where there is none.
    pub open spec fn first(self) -> JsonView {
        match self {
            JsonView::Array(items) => if items.len() > 0 {
                items[0]
            } else {
                JsonView::Null
            },
            _ => JsonView::Null,
        }
    }

    /// There is text under `key`, and it is not empty.
    pub open spec fn has_text(self, key: Seq<char>) -> bool {
        self.text_at(key) matches Some(text) && text.len() > 0
    }
}

proof fn lemma_entry_skip(entries: Seq<(Seq<char>, JsonView)>, key: Seq<char>, n: int)
    requires
        0 <= n <= entries.len(),
        forall|i: int| 0 <= i < n ==> entries[i].0 != key,
    ensures
        entry(entries, key) == entry(entries.skip(n), key),
    decreases n,
{
    if n == 0 {
        assert(entries.skip(0) =~= entries);
    } else {
        lemma_entry_skip(entries.drop_first(), key, n - 1);
        assert(entries.drop_first().skip(n - 1) =~= entries.skip(n));
    }
}

impl Json {
    /// The member `key` of an object; nothing for any other value.
    pub fn get(&self, key: &str) -> (r: Option<&Json>)
        ensures
            (match r {
                Some(value) => self@.get(key@) == Some(value@),
                None => self@.get(key@) is None,
            }),
    {
        match self {
            Json::Object(entries) => {
                let mut i: usize = 0;
                let ghost all = self@->Object_0;
                while i < entries.len()
                    invariant
                        i <= entries.len(),
                        *self == Json::Object(*entries),
                        all == self@->Object_0,
                        forall|k: int| 0 <= k < i ==> all[k].0 != key@,
                    decreases entries.len() - i,
                {
                    assert(all[i as int] == (entries@[i as int].0@, entries@[i as int].1@));
                    if same(entries[i].0.as_str(), key) {
                        proof {
                            lemma_entry_skip(all, key@, i as int);
                            assert(all.skip(i as int)[0] == all[i as int]);
                        }
                        return Some(&entries[i].1);
                    }
                    i = i + 1;
                }
                proof {
                    lemma_entry_skip(all, key@, all.len() as int);
                }
                None
            },
            _ => None,
        }
    }

    pub fn as_str(&self) -> (r: Option<&str>)
        ensures
            (match r {
                Some(text) => self@.as_str() == Some(text@),
                None => self@.as_str() is None,
            }),
    {
        match self {
            Json::String(text) => Some(text.as_str()),
            _ => None,
        }
    }
}

impl Json {
    /// The number, where it is a non-negative integer.
    pub fn as_u64(&self) -> (r: Option<u64>)
        ensures
            r == self@.as_u64(),
    {
        match self {
            Json::Number(Number::PosInt(n)) => Some(*n),
            _ => None,
        }
    }

    /// The text under `key`, where there is one.
    pub fn text_at(&self, key: &str) -> (r: Option<&str>)
        ensures
            (match r {
                Some(text) => self@.text_at(key@) == Some(text@),
                None => self@.text_at(key@) is None,
            }),
    {
        match self.get(key) {
            Some(value) => value.as_str(),
            None => None,
        }
    }

    /// A copy of the member `key`, and `null` where there is none.
    pub fn at(&self, key: &str) -> (r: Json)
        ensures
            r@ == self@.at(key@),
    {
        match self.get(key) {
            Some(value) => value.clone(),
            None => Json::Null,
        }
    }

    /// A copy of the text under `key`, where there is one.
    pub fn text_copy(&self, key: &str) -> (r: Option<String>)
        ensures
            opt_view(r) == self@.text_at(key@),
    {
        match self.text_at(key) {
            Some(text) => Some(text.to_owned()),
            None => None,
        }
    }

    /// The text under `key`, and the empty text where there is none.
    pub fn text_or_empty(&self, key: &str) -> (r: String)
        ensures
            r@ == self@.text_or_empty(key@),
    {
        match self.text_at(key) {
            Some(text) => text.to_owned(),
            None => String::new(),
        }
    }

    pub fn as_bool(&self) -> (r: Option<bool>)
        ensures
            r == self@.as_bool(),
    {
        match self {
            Json::Bool(b) => Some(*b),
            _ => None,
        }
    }

    pub fn as_array(&self) -> (r: Option<&Vec<Json>>)
        ensures
            (match r {
                Some(items) => self@.as_array() == Some(views(items@)),
                None => self@.as_array() is None,
            }),
    {
        match self {
            Json::Array(items) => {
                assert(self@->Array_0 =~= views(items@));
                Some(items)
            },
            _ => None,
        }
    }

    /// The members of an object.
    pub fn as_object(&self) -> (r: Option<&Vec<(String, Json)>>)
        ensures
            (match r {
                Some(entries) => self@.as_object() == Some(members(entries@)),
                None => self@.as_object() is None,
            }),
    {
        match self {
            Json::Object(entries) => {
                assert(self@->Object_0 =~= members(entries@));
                Some(entries)
            },
            _ => None,
        }
    }

    /// A copy of the first item of an array, and `null` where there is none.
    pub fn first(&self) -> (r: Json)
        ensures
            r@ == self@.first(),
    {
        match self.as_array() {
            Some(items) => {
                if items.len() > 0 {
                    assert(views(items@)[0] == items@[0]@);
                    items[0].clone()
                } else {
                    Json::Null
                }
            },
            None => Json::Null,
        }
    }

    /// Whether there is text under `key`, and it is not empty.
    pub fn has_text(&self, key: &str) -> (r: bool)
        ensures
            r == self@.has_text(key@),
    {
        match self.text_at(key) {
            Some(text) => !text.is_empty(),
            None => false,
        }
    }
}

impl Clone for Json {
    fn clone(&self) -> (r: Self)
        ensures
            r@ == self@,
        decreases *self,
    {
        match self {
            Json::Null => Json::Null,
            Json::Bool(b) => Json::Bool(*b),
            Json::Number(Number::PosInt(n)) => Json::Number(Number::PosInt(*n)),
            Json::Number(Number::NegInt(n)) => Json::Number(Number::NegInt(*n)),
            Json::Number(Number::Float(text)) => Json::Number(Number::Float(text.clone())),
            Json::String(text) => Json::String(text.clone()),
            Json::Array(items) => {
                let mut copies: Vec<Json> = Vec::new();
                let mut i: usize = 0;
                while i < items.len()
                    invariant
                        i <= items.len(),
                        *self == Json::Array(*items),
                        copies@.len() == i,
                        forall|k: int| 0 <= k < i ==> (#[trigger] copies@[k])@ == items@[k]@,
                    decreases items.len() - i,
                {
                    assert(decreases_to!(*self => self->Array_0));
                    assert(decreases_to!(*items => items@));
                    assert(decreases_to!(items@ => items@[i as int]));
                    let copy = items[i].clone();
                    copies.push(copy);
                    i = i + 1;
                }
                assert(Json::Array(copies)@->Array_0 =~= self@->Array_0);
                Json::Array(copies)
            },
            Json::Object(entries) => {
                let mut copies: Vec<(String, Json)> = Vec::new();
                let mut i: usize = 0;
                while i < entries.len()
                    invariant
                        i <= entries.len(),
                        *self == Json::Object(*entries),
                        copies@.len() == i,
                        forall|k: int|
                            0 <= k < i ==> (#[trigger] copies@[k]).0@ == entries@[k].0@
                                && copies@[k].1@ == entries@[k].1@,
                    decreases entries.len() - i,
                {
                    let key = entries[i].0.clone();
                    assert(decreases_to!(*self => self->Object_0));
                    assert(decreases_to!(*entries => entries@));
                    assert(decreases_to!(entries@ => entries@[i as int]));
                    assert(decreases_to!(entries@[i as int] => entries@[i as int].1));
                    let copy = entries[i].1.clone();
                    copies.push((key, copy));
                    i = i + 1;
                }
                assert(Json::Object(copies)@->Object_0 =~= self@->Object_0);
                Json::Object(copies)
            },
        }
    }
}

/// An object made of the given members.
pub fn object(entries: Vec<(String, Json)>) -> (r: Json)
    ensures
        r@ == JsonView::Object(members(entries@)),
{
    proof {
        lemma_object(entries);
    }
    Json::Object(entries)
}

/// An array made of the given items.
pub fn array(items: Vec<Json>) -> (r: Json)
    ensures
        r@ == JsonView::Array(views(items@)),
{
    proof {
        lemma_array(items);
    }
    Json::Array(items)
}

/// One member of an object.
pub fn member(key: &str, value: Json) -> (r: (String, Json))
    ensures
        (r.0@, r.1@) == (key@, value@),
{
    (key.to_owned(), value)
}

/// A text, and `null` where there is none.
pub open spec fn text_or_null(text: Option<Seq<char>>) -> JsonView {
    match text {
        Some(inner) => JsonView::String(inner),
        None => JsonView::Null,
    }
}

/// A text, and `null` where there is none.
pub fn opt_text(text: &Option<String>) -> (r: Json)
    ensures
        r@ == text_or_null(opt_view(*text)),
{
    match text {
        Some(inner) => Json::String(inner.clone()),
        None => Json::Null,
    }
}

/// A borrowed text, and `null` where there is none.
pub fn opt_str_json(text: Option<&str>) -> (r: Json)
    ensures
        r@ == text_or_null(opt_str(text)),
{
    match text {
        Some(inner) => text_json(inner),
        None => Json::Null,
    }
}

/// A copy of a text as a value.
pub fn text_json(text: &str) -> (r: Json)
    ensures
        r@ == JsonView::String(text@),
{
    Json::String(text.to_owned())
}

/// A count as a value.
pub fn count_json(n: u64) -> (r: Json)
    ensures
        r@ == JsonView::Number(NumberView::PosInt(n)),
{
    Json::Number(Number::PosInt(n))
}

/// The texts, as values.
pub open spec fn texts_json(texts: Seq<Seq<char>>) -> JsonView {
    JsonView::Array(Seq::new(texts.len(), |i: int| JsonView::String(texts[i])))
}

/// The texts, as values.
pub fn text_array(texts: &Vec<String>) -> (r: Json)
    ensures
        r@ == texts_json(views(texts@)),
{
    let mut items: Vec<Json> = Vec::new();
    let mut i: usize = 0;
    while i < texts.len()
        invariant
            i <= texts.len(),
            items@.len() == i,
            forall|k: int| 0 <= k < i ==> (#[trigger] items@[k])@ == JsonView::String(texts@[k]@),
        decreases texts.len() - i,
    {
        items.push(Json::String(texts[i].clone()));
        i = i + 1;
    }
    let r = array(items);
    assert(r@->Array_0 =~= texts_json(views(texts@))->Array_0);
    r
}

/// A copy of an optional value.
pub fn copy_json(value: Option<&Json>) -> (r: Option<Json>)
    ensures
        match value {
            Some(inner) => opt_view(r) == Some(inner@),
            None => r is None,
        },
{
    match value {
        Some(inner) => Some(inner.clone()),
        None => None,
    }
}

/// The members with one set: in its place where the key is there, and else at
/// the end.
pub open spec fn with_member(
    entries: Seq<(Seq<char>, JsonView)>,
    key: Seq<char>,
    value: JsonView,
) -> Seq<(Seq<char>, JsonView)>
    decreases entries.len(),
{
    if entries.len() == 0 {
        seq![(key, value)]
    } else if entries[0].0 == key {
        seq![(key, value)] + entries.drop_first()
    } else {
        seq![entries[0]] + with_member(entries.drop_first(), key, value)
    }
}

proof fn lemma_with_member_skip(
    entries: Seq<(Seq<char>, JsonView)>,
    key: Seq<char>,
    value: JsonView,
    n: int,
)
    requires
        0 <= n <= entries.len(),
        forall|i: int| 0 <= i < n ==> (#[trigger] entries[i]).0 != key,
    ensures
        with_member(entries, key, value) == entries.take(n) + with_member(
            entries.skip(n),
            key,
            value,
        ),
    decreases n,
{
    if n == 0 {
        assert(entries.take(0) =~= Seq::empty());
        assert(entries.skip(0) =~= entries);
        assert(with_member(entries, key, value) =~= entries.take(0) + with_member(
            entries.skip(0),
            key,
            value,
        ));
    } else {
        let rest = entries.drop_first();
        assert forall|i: int| 0 <= i < n - 1 implies (#[trigger] rest[i]).0 != key by {
            assert(rest[i] == entries[i + 1]);
        }
        lemma_with_member_skip(rest, key, value, n - 1);
        assert(rest.skip(n - 1) =~= entries.skip(n));
        assert(seq![entries[0]] + rest.take(n - 1) =~= entries.take(n));
        assert(with_member(entries, key, value) =~= entries.take(n) + with_member(
            entries.skip(n),
            key,
            value,
        ));
    }
}

/// A member that was set reads back.
pub proof fn lemma_set_member_reads_back(
    entries: Seq<(Seq<char>, JsonView)>,
    key: Seq<char>,
    value: JsonView,
)
    ensures
        entry(with_member(entries, key, value), key) == Some(value),
    decreases entries.len(),
{
    let grown = with_member(entries, key, value);
    if entries.len() == 0 || entries[0].0 == key {
        assert(grown[0] == (key, value));
    } else {
        lemma_set_member_reads_back(entries.drop_first(), key, value);
        assert(grown[0] == entries[0]);
        assert(grown.drop_first() =~= with_member(entries.drop_first(), key, value));
    }
}

/// Setting a member leaves the others as they are.
pub proof fn lemma_set_member_keeps_others(
    entries: Seq<(Seq<char>, JsonView)>,
    key: Seq<char>,
    value: JsonView,
    other: Seq<char>,
)
    requires
        other != key,
    ensures
        entry(with_member(entries, key, value), other) == entry(entries, other),
    decreases entries.len(),
{
    let grown = with_member(entries, key, value);
    if entries.len() == 0 {
        assert(grown.drop_first() =~= Seq::empty());
        reveal_with_fuel(entry, 2);
    } else if entries[0].0 == key {
        assert(grown.drop_first() =~= entries.drop_first());
    } else {
        lemma_set_member_keeps_others(entries.drop_first(), key, value, other);
        assert(grown[0] == entries[0]);
        assert(grown.drop_first() =~= with_member(entries.drop_first(), key, value));
    }
}

/// A member whose key no earlier one has reads back.
pub proof fn lemma_member_reads(entries: Seq<(Seq<char>, JsonView)>, i: int)
    requires
        0 <= i < entries.len(),
        forall|k: int| 0 <= k < i ==> (#[trigger] entries[k]).0 != entries[i].0,
    ensures
        entry(entries, entries[i].0) == Some(entries[i].1),
{
    lemma_entry_skip(entries, entries[i].0, i);
    assert(entries.skip(i)[0] == entries[i]);
}

/// A key that no member has reads as nothing.
pub proof fn lemma_no_member(entries: Seq<(Seq<char>, JsonView)>, key: Seq<char>)
    requires
        forall|k: int| 0 <= k < entries.len() ==> (#[trigger] entries[k]).0 != key,
    ensures
        entry(entries, key) is None,
{
    lemma_entry_skip(entries, key, entries.len() as int);
}

/// Sets a member: in its place where the key is there, and else at the end.
pub fn set_member(entries: &mut Vec<(String, Json)>, key: &str, value: Json)
    ensures
        members(final(entries)@) == with_member(members(old(entries)@), key@, value@),
{
    let ghost before = members(entries@);
    let mut i: usize = 0;
    while i < entries.len()
        invariant
            i <= entries@.len(),
            before == members(entries@),
            before == members(old(entries)@),
            forall|k: int| 0 <= k < i ==> (#[trigger] before[k]).0 != key@,
        decreases entries@.len() - i,
    {
        assert(before[i as int] == (entries@[i as int].0@, entries@[i as int].1@));
        if same(entries[i].0.as_str(), key) {
            entries.set(i, (key.to_owned(), value));
            proof {
                lemma_with_member_skip(before, key@, value@, i as int);
                let tail = before.skip(i as int);
                assert(tail[0] == before[i as int]);
                assert(tail.drop_first() =~= before.skip(i + 1));
                assert(members(entries@) =~= before.take(i as int) + (seq![(key@, value@)]
                    + before.skip(i + 1)));
            }
            return;
        }
        i = i + 1;
    }
    proof {
        lemma_with_member_skip(before, key@, value@, before.len() as int);
        assert(before.skip(before.len() as int) =~= Seq::empty());
        assert(before.take(before.len() as int) =~= before);
    }
    entries.push((key.to_owned(), value));
    assert(members(entries@) =~= before + seq![(key@, value@)]);
}

/// A copy of an object's members.
pub fn copy_members(entries: &Vec<(String, Json)>) -> (r: Vec<(String, Json)>)
    ensures
        members(r@) == members(entries@),
{
    let mut copies: Vec<(String, Json)> = Vec::new();
    let mut i: usize = 0;
    while i < entries.len()
        invariant
            i <= entries.len(),
            copies@.len() == i,
            forall|k: int|
                0 <= k < i ==> (#[trigger] copies@[k]).0@ == entries@[k].0@ && copies@[k].1@
                    == entries@[k].1@,
        decreases entries.len() - i,
    {
        let copy = entries[i].1.clone();
        copies.push((entries[i].0.clone(), copy));
        i = i + 1;
    }
    assert(members(copies@) =~= members(entries@));
    copies
}

} // verus!
