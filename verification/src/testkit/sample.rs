//! A value that meets a JSON Schema, made out of the schema alone.
//!
//! Of a schema, `enum`, `type`, `required` and `properties` are read, at every
//! depth; what else it says is left aside.
use vstd::prelude::*;

use crate::caps::mock_schema_aware::{empty_of, empty_value, first_allowed};
use crate::json::{entry, member, members, object, Json, JsonView};
use crate::text::{same, views};

verus! {

/// The values a schema's `enum` allows, where it has one.
pub open spec fn allowed(schema: JsonView) -> Option<Seq<JsonView>> {
    match schema.get("enum"@) {
        Some(values) => values.as_array(),
        None => None,
    }
}

/// The properties a schema declares, in order.
pub open spec fn declared(schema: JsonView) -> Seq<(Seq<char>, JsonView)> {
    match schema.get("properties"@) {
        Some(JsonView::Object(props)) => props,
        _ => Seq::empty(),
    }
}

/// What a schema's `required` lists.
pub open spec fn required(schema: JsonView) -> Seq<JsonView> {
    match schema.get("required"@) {
        Some(JsonView::Array(names)) => names,
        _ => Seq::empty(),
    }
}

/// The type a sample is given: the schema's own, or the first of several.
pub open spec fn asked_type(schema: JsonView) -> Seq<char> {
    let kind = schema.at("type"@);
    match kind.as_str() {
        Some(name) => name,
        None => match kind.first().as_str() {
            Some(name) => name,
            None => Seq::empty(),
        },
    }
}

/// A sample of the schema is an object: it is of that type, or of none and
/// speaks of members.
pub open spec fn wants_object(schema: JsonView) -> bool {
    ||| asked_type(schema) == "object"@
    ||| schema.get("type"@) is None && (schema.get("properties"@) is Some || schema.get(
        "required"@,
    ) is Some)
}

/// The first `n` required names that no property declares, each once, in order.
pub open spec fn undeclared(
    props: Seq<(Seq<char>, JsonView)>,
    names: Seq<JsonView>,
    n: nat,
) -> Seq<(Seq<char>, JsonView)>
    decreases n,
{
    if n == 0 {
        Seq::empty()
    } else {
        let rest = undeclared(props, names, (n - 1) as nat);
        match names[n - 1].as_str() {
            Some(name) => if entry(props, name) is None && entry(rest, name) is None {
                rest.push((name, JsonView::Null))
            } else {
                rest
            },
            None => rest,
        }
    }
}

proof fn lemma_entry_within(entries: Seq<(Seq<char>, JsonView)>, key: Seq<char>)
    ensures
        entry(entries, key) matches Some(value) ==> exists|i: int|
            0 <= i < entries.len() && (#[trigger] entries[i]).1 == value && entries[i].0 == key,
    decreases entries.len(),
{
    if entries.len() > 0 && entries[0].0 != key {
        lemma_entry_within(entries.drop_first(), key);
        if entry(entries.drop_first(), key) is Some {
            let value = entry(entries.drop_first(), key)->0;
            let i = choose|i: int|
                0 <= i < entries.drop_first().len() && (#[trigger] entries.drop_first()[i]).1
                    == value && entries.drop_first()[i].0 == key;
            assert(entries[i + 1] == entries.drop_first()[i]);
        }
    } else if entries.len() > 0 {
        assert(entries[0].1 == entries[0].1);
    }
}

/// What a schema declares is smaller than the schema.
pub proof fn lemma_properties_are_smaller(schema: JsonView)
    ensures
        forall|i: int|
            0 <= i < declared(schema).len() ==> decreases_to!(
                schema => (#[trigger] declared(schema)[i]).1
            ),
{
    let props = declared(schema);
    if schema.get("properties"@) is Some && props.len() > 0 {
        let entries = schema->Object_0;
        lemma_entry_within(entries, "properties"@);
        let value = schema.get("properties"@)->0;
        let k = choose|k: int|
            0 <= k < entries.len() && (#[trigger] entries[k]).1 == value && entries[k].0
                == "properties"@;
        assert(decreases_to!(schema => schema->Object_0));
        assert(decreases_to!(entries => entries[k]));
        assert(decreases_to!(entries[k] => entries[k].1));
        assert(decreases_to!(value => value->Object_0));
        assert forall|i: int| 0 <= i < props.len() implies decreases_to!(
            schema => (#[trigger] declared(schema)[i]).1
        ) by {
            assert(decreases_to!(props => props[i]));
            assert(decreases_to!(props[i] => props[i].1));
        }
    }
}

/// The sample of a schema: the first value its `enum` allows; an object with a
/// sample of every property and `null` under every other required name; or the
/// empty value of its type.
pub open spec fn sample_of(schema: JsonView) -> JsonView
    decreases schema,
{
    proof {
        lemma_properties_are_smaller(schema);
    }
    match first_allowed(schema) {
        Some(value) => value,
        None => if wants_object(schema) {
            let props = declared(schema);
            JsonView::Object(
                Seq::new(
                    props.len(),
                    |i: int|
                        if 0 <= i < props.len() {
                            (props[i].0, sample_of(props[i].1))
                        } else {
                            props[i]
                        },
                ) + undeclared(props, required(schema), required(schema).len()),
            )
        } else {
            empty_of(asked_type(schema))
        },
    }
}

/// A value is of a type; a type that is not known asks for nothing.
pub open spec fn of_type(name: Seq<char>, value: JsonView) -> bool {
    if name == "string"@ {
        value is String
    } else if name == "number"@ || name == "integer"@ {
        value is Number
    } else if name == "boolean"@ {
        value is Bool
    } else if name == "object"@ {
        value is Object
    } else if name == "array"@ {
        value is Array
    } else if name == "null"@ {
        value is Null
    } else {
        true
    }
}

/// A value is of the schema's type, or of one of several.
pub open spec fn fits_type(schema: JsonView, value: JsonView) -> bool {
    match schema.get("type"@) {
        Some(JsonView::String(name)) => of_type(name, value),
        Some(JsonView::Array(names)) => exists|i: int|
            0 <= i < names.len() && ((#[trigger] names[i]).as_str() matches Some(name) && of_type(
                name,
                value,
            )),
        _ => true,
    }
}

/// An object has every name the schema requires.
pub open spec fn has_required(schema: JsonView, entries: Seq<(Seq<char>, JsonView)>) -> bool {
    forall|i: int|
        0 <= i < required(schema).len() ==> ((#[trigger] required(schema)[i]).as_str() matches Some(
            name,
        ) ==> entry(entries, name) is Some)
}

/// A value meets a schema.
pub open spec fn meets(schema: JsonView, value: JsonView) -> bool
    decreases schema,
{
    proof {
        lemma_properties_are_smaller(schema);
    }
    &&& allowed(schema) matches Some(values) ==> values.contains(value)
    &&& fits_type(schema, value)
    &&& value matches JsonView::Object(entries) ==> {
        &&& has_required(schema, entries)
        &&& forall|i: int|
            0 <= i < declared(schema).len() ==> (entry(
                entries,
                (#[trigger] declared(schema)[i]).0,
            ) matches Some(inner) ==> meets(declared(schema)[i].1, inner))
    }
}

/// The schema can be met by what it names first: the first value of an `enum`
/// meets the rest of the schema, several types begin with a name, and no
/// property is declared twice.
pub open spec fn well_posed(schema: JsonView) -> bool
    decreases schema,
{
    proof {
        lemma_properties_are_smaller(schema);
    }
    &&& allowed(schema) matches Some(values) ==> values.len() > 0 && meets(schema, values[0])
    &&& schema.at("type"@) is Array ==> schema.at("type"@).first() is String
    &&& forall|i: int, k: int|
        0 <= k < i < declared(schema).len() ==> (#[trigger] declared(schema)[k]).0 != (
        #[trigger] declared(schema)[i]).0
    &&& forall|i: int|
        0 <= i < declared(schema).len() ==> well_posed((#[trigger] declared(schema)[i]).1)
}

fn type_of(schema: &Json) -> (r: String)
    ensures
        r@ == asked_type(schema@),
{
    let kind = schema.at("type");
    match kind.as_str() {
        Some(name) => name.to_owned(),
        None => match kind.first().as_str() {
            Some(name) => name.to_owned(),
            None => String::new(),
        },
    }
}

fn has_entry(entries: &Vec<(String, Json)>, key: &str) -> (r: bool)
    ensures
        r == (entry(members(entries@), key@) is Some),
{
    let ghost all = members(entries@);
    let mut i: usize = 0;
    assert(all.skip(0) =~= all);
    while i < entries.len()
        invariant
            i <= entries@.len(),
            all == members(entries@),
            entry(all, key@) == entry(all.skip(i as int), key@),
        decreases entries@.len() - i,
    {
        assert(all.skip(i as int)[0] == (entries@[i as int].0@, entries@[i as int].1@));
        assert(all.skip(i as int).drop_first() =~= all.skip(i + 1));
        if same(entries[i].0.as_str(), key) {
            return true;
        }
        i = i + 1;
    }
    assert(all.skip(i as int) =~= Seq::empty());
    false
}

fn list_undeclared(props: &Vec<(String, Json)>, names: &Vec<Json>) -> (r: Vec<(String, Json)>)
    ensures
        members(r@) == undeclared(members(props@), views(names@), names@.len()),
{
    let ghost known = members(props@);
    let ghost all = views(names@);
    let mut added: Vec<(String, Json)> = Vec::new();
    let mut i: usize = 0;
    assert(members(added@) =~= undeclared(known, all, 0));
    while i < names.len()
        invariant
            i <= names@.len(),
            known == members(props@),
            all == views(names@),
            members(added@) == undeclared(known, all, i as nat),
        decreases names@.len() - i,
    {
        assert(all[i as int] == names@[i as int]@);
        let ghost before = members(added@);
        match names[i].as_str() {
            Some(name) => {
                if !has_entry(props, name) && !has_entry(&added, name) {
                    added.push(member(name, Json::Null));
                    assert(members(added@) =~= before.push((name@, JsonView::Null)));
                }
            },
            None => {},
        }
        i = i + 1;
    }
    added
}

/// A value that meets a schema.
pub fn sample_for_schema(schema: &Json) -> (r: Json)
    ensures
        r@ == sample_of(schema@),
    decreases schema@,
{
    match schema.get("enum") {
        Some(values) => match values.as_array() {
            Some(list) => {
                if list.len() > 0 {
                    assert(views(list@)[0] == list@[0]@);
                    return list[0].clone();
                }
            },
            None => {},
        },
        None => {},
    }
    let name = type_of(schema);
    let untyped = schema.get("type").is_none() && (schema.get("properties").is_some()
        || schema.get("required").is_some());
    if !(same(name.as_str(), "object") || untyped) {
        return empty_value(name.as_str());
    }
    let none: Vec<(String, Json)> = Vec::new();
    assert(members(none@) =~= Seq::empty());
    let props = match schema.get("properties") {
        Some(value) => match value.as_object() {
            Some(props) => props,
            None => &none,
        },
        None => &none,
    };
    let ghost all = declared(schema@);
    assert(members(props@) == all);
    let mut entries: Vec<(String, Json)> = Vec::new();
    let mut i: usize = 0;
    while i < props.len()
        invariant
            i <= props@.len(),
            all == declared(schema@),
            members(props@) == all,
            entries@.len() == i,
            forall|k: int|
                0 <= k < i ==> (#[trigger] entries@[k]).0@ == all[k].0 && entries@[k].1@
                    == sample_of(all[k].1),
        decreases props@.len() - i,
    {
        assert(all[i as int] == (props@[i as int].0@, props@[i as int].1@));
        proof {
            lemma_properties_are_smaller(schema@);
            assert(decreases_to!(schema@ => declared(schema@)[i as int].1));
        }
        let value = sample_for_schema(&props[i].1);
        entries.push((props[i].0.clone(), value));
        i = i + 1;
    }
    let no_names: Vec<Json> = Vec::new();
    assert(views(no_names@) =~= Seq::empty());
    let names = match schema.get("required") {
        Some(value) => match value.as_array() {
            Some(names) => names,
            None => &no_names,
        },
        None => &no_names,
    };
    assert(views(names@) == required(schema@));
    let mut rest = list_undeclared(props, names);
    let ghost head = members(entries@);
    let ghost tail = members(rest@);
    entries.append(&mut rest);
    assert(members(entries@) =~= head + tail);
    assert(members(entries@) =~= sample_of(schema@)->Object_0);
    object(entries)
}

proof fn lemma_entry_at(entries: Seq<(Seq<char>, JsonView)>, i: int)
    requires
        0 <= i < entries.len(),
        forall|k: int| 0 <= k < i ==> (#[trigger] entries[k]).0 != entries[i].0,
    ensures
        entry(entries, entries[i].0) == Some(entries[i].1),
    decreases i,
{
    if i > 0 {
        let rest = entries.drop_first();
        assert forall|k: int| 0 <= k < i - 1 implies (#[trigger] rest[k]).0 != rest[i - 1].0 by {
            assert(rest[k] == entries[k + 1]);
        }
        lemma_entry_at(rest, i - 1);
        assert(entries[0].0 != entries[i].0);
    }
}

proof fn lemma_entry_concat(
    a: Seq<(Seq<char>, JsonView)>,
    b: Seq<(Seq<char>, JsonView)>,
    key: Seq<char>,
)
    ensures
        entry(a + b, key) == (if entry(a, key) is Some {
            entry(a, key)
        } else {
            entry(b, key)
        }),
    decreases a.len(),
{
    if a.len() == 0 {
        assert(a + b =~= b);
    } else {
        assert((a + b)[0] == a[0]);
        assert((a + b).drop_first() =~= a.drop_first() + b);
        lemma_entry_concat(a.drop_first(), b, key);
    }
}

proof fn lemma_same_keys(
    a: Seq<(Seq<char>, JsonView)>,
    b: Seq<(Seq<char>, JsonView)>,
    key: Seq<char>,
)
    requires
        a.len() == b.len(),
        forall|i: int| 0 <= i < a.len() ==> (#[trigger] a[i]).0 == b[i].0,
    ensures
        entry(a, key) is Some == entry(b, key) is Some,
    decreases a.len(),
{
    if a.len() > 0 {
        let x = a.drop_first();
        let y = b.drop_first();
        assert forall|i: int| 0 <= i < x.len() implies (#[trigger] x[i]).0 == y[i].0 by {
            assert(x[i] == a[i + 1]);
        }
        assert(a[0].0 == b[0].0);
        lemma_same_keys(x, y, key);
    }
}

proof fn lemma_undeclared(
    props: Seq<(Seq<char>, JsonView)>,
    names: Seq<JsonView>,
    n: nat,
    i: int,
)
    requires
        0 <= i < n <= names.len(),
    ensures
        names[i].as_str() matches Some(name) ==> entry(props, name) is Some || entry(
            undeclared(props, names, n),
            name,
        ) is Some,
    decreases n,
{
    let rest = undeclared(props, names, (n - 1) as nat);
    let now = undeclared(props, names, n);
    if names[i].as_str() is Some {
        let name = names[i].as_str()->0;
        if i < n - 1 {
            lemma_undeclared(props, names, (n - 1) as nat, i);
        }
        if now.len() > rest.len() {
            assert(now =~= rest + seq![now.last()]);
            lemma_entry_concat(rest, seq![now.last()], name);
            assert(seq![now.last()][0] == now.last());
            if i == n - 1 {
                assert(now.last().0 == name);
            }
        }
    }
}

proof fn lemma_object_is_of_its_type()
    ensures
        forall|entries: Seq<(Seq<char>, JsonView)>| #[trigger]
            of_type("object"@, JsonView::Object(entries)),
{
    reveal_strlit("object");
    reveal_strlit("string");
    reveal_strlit("number");
    reveal_strlit("integer");
    reveal_strlit("boolean");
    assert("object"@[0] == 'o' && "string"@[0] == 's' && "number"@[0] == 'n');
    assert("object"@.len() == 6 && "integer"@.len() == 7 && "boolean"@.len() == 7);
}

/// The sample of a schema meets it, wherever what the schema names first can.
pub proof fn samples_meet_their_schema(schema: JsonView)
    requires
        well_posed(schema),
    ensures
        meets(schema, sample_of(schema)),
    decreases schema,
{
    lemma_properties_are_smaller(schema);
    let value = sample_of(schema);
    if first_allowed(schema) is None {
        assert(allowed(schema) is None);
        let kind = schema.at("type"@);
        if kind is Array {
            assert(kind->Array_0[0].as_str() == Some(asked_type(schema)));
        }
        lemma_object_is_of_its_type();
        assert(of_type(asked_type(schema), value) || schema.get("type"@) is None);
        assert(fits_type(schema, value));
        if wants_object(schema) {
            let props = declared(schema);
            let names = required(schema);
            let extra = undeclared(props, names, names.len());
            let entries = value->Object_0;
            let own = entries.take(props.len() as int);
            assert(entries =~= own + extra);
            assert forall|i: int| 0 <= i < own.len() implies (#[trigger] own[i]).0 == props[i].0
                && own[i].1 == sample_of(props[i].1) by {}
            assert forall|i: int| 0 <= i < names.len() implies ((
            #[trigger] names[i]).as_str() matches Some(name) ==> entry(entries, name) is Some) by {
                lemma_undeclared(props, names, names.len(), i);
                if names[i].as_str() is Some {
                    let name = names[i].as_str()->0;
                    lemma_entry_concat(own, extra, name);
                    lemma_same_keys(own, props, name);
                }
            }
            assert(has_required(schema, entries));
            assert forall|i: int| 0 <= i < props.len() implies (entry(
                entries,
                (#[trigger] declared(schema)[i]).0,
            ) matches Some(inner) ==> meets(declared(schema)[i].1, inner)) by {
                assert(decreases_to!(schema => declared(schema)[i].1));
                samples_meet_their_schema(props[i].1);
                assert forall|k: int| 0 <= k < i implies (#[trigger] own[k]).0 != own[i].0 by {
                    assert(declared(schema)[k].0 != declared(schema)[i].0);
                }
                lemma_entry_at(own, i);
                lemma_entry_concat(own, extra, props[i].0);
            }
        }
    }
}

} // verus!
