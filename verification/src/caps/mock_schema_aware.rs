//! Stand-ins that answer the shape a node declares instead of echoing what
//! they were asked.
//!
//! A dry run that echoes requests fails every declared output schema. These
//! two read the schema off the request and answer a value of that shape; with
//! no schema declared, they echo.
use vstd::prelude::*;

use crate::json::{
    array, count_json, member, members, object, opt_str_json, text_json, text_or_null, Json,
    JsonView, NumberView,
};
use crate::nodes::agent::set_at;
use crate::text::{opt_str, same, views};

verus! {

/// The first value a schema's `enum` allows.
pub open spec fn first_allowed(subschema: JsonView) -> Option<JsonView> {
    match subschema.get("enum"@) {
        Some(JsonView::Array(values)) => if values.len() > 0 {
            Some(values[0])
        } else {
            None
        },
        _ => None,
    }
}

/// The placeholder of one subschema: the first value its `enum` allows, and
/// else the empty value of its `type`.
pub open spec fn type_placeholder(subschema: JsonView) -> JsonView {
    match first_allowed(subschema) {
        Some(value) => value,
        None => match subschema.text_at("type"@) {
            Some(name) => empty_of(name),
            None => JsonView::Null,
        },
    }
}

/// The empty value of a type.
pub open spec fn empty_of(name: Seq<char>) -> JsonView {
    if name == "string"@ {
        JsonView::String(Seq::empty())
    } else if name == "number"@ || name == "integer"@ {
        JsonView::Number(NumberView::PosInt(0))
    } else if name == "boolean"@ {
        JsonView::Bool(false)
    } else if name == "object"@ {
        JsonView::Object(Seq::empty())
    } else if name == "array"@ {
        JsonView::Array(Seq::empty())
    } else {
        JsonView::Null
    }
}

/// The placeholder of a schema: every declared property with the placeholder
/// of its own subschema; a schema that declares none is taken by its type.
pub open spec fn schema_placeholder(schema: JsonView) -> JsonView {
    match schema.get("properties"@) {
        Some(JsonView::Object(props)) => JsonView::Object(
            Seq::new(props.len(), |i: int| (props[i].0, type_placeholder(props[i].1))),
        ),
        _ => type_placeholder(schema),
    }
}

/// The empty value of a type.
pub fn empty_value(name: &str) -> (r: Json)
    ensures
        r@ == empty_of(name@),
{
    if same(name, "string") {
        let r = Json::String(String::new());
        assert(r@->String_0 =~= Seq::empty());
        r
    } else if same(name, "number") || same(name, "integer") {
        count_json(0)
    } else if same(name, "boolean") {
        Json::Bool(false)
    } else if same(name, "object") {
        let r = object(Vec::new());
        assert(r@->Object_0 =~= Seq::empty());
        r
    } else if same(name, "array") {
        let items: Vec<Json> = Vec::new();
        let r = array(items);
        assert(r@->Array_0 =~= Seq::empty());
        r
    } else {
        Json::Null
    }
}

/// The placeholder of one subschema.
pub fn placeholder_for_type(subschema: &Json) -> (r: Json)
    ensures
        r@ == type_placeholder(subschema@),
{
    match subschema.get("enum") {
        Some(allowed) => match allowed.as_array() {
            Some(values) => {
                if values.len() > 0 {
                    assert(views(values@)[0] == values@[0]@);
                    return values[0].clone();
                }
            },
            None => {},
        },
        None => {},
    }
    match subschema.text_at("type") {
        Some(name) => empty_value(name),
        None => Json::Null,
    }
}

/// The placeholder of a schema.
pub fn placeholder_for_schema(schema: &Json) -> (r: Json)
    ensures
        r@ == schema_placeholder(schema@),
{
    let declared = match schema.get("properties") {
        Some(props) => props.as_object(),
        None => None,
    };
    match declared {
        Some(props) => {
            let ghost all = members(props@);
            let mut entries: Vec<(String, Json)> = Vec::new();
            let mut i: usize = 0;
            while i < props.len()
                invariant
                    i <= props.len(),
                    all == members(props@),
                    entries@.len() == i,
                    forall|k: int|
                        0 <= k < i ==> (#[trigger] entries@[k]).0@ == all[k].0 && entries@[k].1@
                            == type_placeholder(all[k].1),
                decreases props.len() - i,
            {
                assert(all[i as int] == (props@[i as int].0@, props@[i as int].1@));
                let value = placeholder_for_type(&props[i].1);
                entries.push((props[i].0.clone(), value));
                i = i + 1;
            }
            assert(members(entries@) =~= schema_placeholder(schema@)->Object_0);
            object(entries)
        },
        None => placeholder_for_type(schema),
    }
}

/// The schema a request declares for its output.
pub open spec fn declared_schema(request: JsonView) -> Option<JsonView> {
    set_at(request.at("output_parser"@), "schema"@)
}

fn schema_of(request: &Json) -> (r: Option<&Json>)
    ensures
        match r {
            Some(schema) => declared_schema(request@) == Some(schema@),
            None => declared_schema(request@) is None,
        },
{
    match request.get("output_parser") {
        Some(parser) => match parser.get("schema") {
            Some(schema) => match schema {
                Json::Null => None,
                _ => Some(schema),
            },
            None => None,
        },
        None => None,
    }
}

/// A harness stand-in that answers the declared shape.
#[derive(Debug, Clone, Copy, PartialEq, Eq, Default)]
pub struct SchemaAwareMockAgentRunner;

impl SchemaAwareMockAgentRunner {
    /// Answers an agent run: the placeholder of the declared schema, and else
    /// the agent, the request and the connection it was called with.
    pub fn run_agent(&self, agent_ref: &str, request: Json, conn: Option<&str>) -> (r: Json)
        ensures
            r@ == (match declared_schema(request@) {
                Some(schema) => schema_placeholder(schema),
                None => JsonView::Object(
                    seq![
                        ("agent"@, JsonView::String(agent_ref@)),
                        ("request"@, request@),
                        (
                            "connection"@,
                            text_or_null(opt_str(conn)),
                        ),
                    ],
                ),
            }),
    {
        match schema_of(&request) {
            Some(schema) => placeholder_for_schema(schema),
            None => {
                let mut entries: Vec<(String, Json)> = Vec::new();
                entries.push(member("agent", text_json(agent_ref)));
                entries.push(member("request", request.clone()));
                entries.push(member("connection", opt_str_json(conn)));
                assert(members(entries@) =~= seq![
                    ("agent"@, JsonView::String(agent_ref@)),
                    ("request"@, request@),
                    (
                        "connection"@,
                        text_or_null(opt_str(conn)),
                    ),
                ]);
                object(entries)
            },
        }
    }
}

/// A model stand-in that answers the declared shape.
#[derive(Debug, Clone, Copy, PartialEq, Eq, Default)]
pub struct SchemaAwareMockLlm;

impl SchemaAwareMockLlm {
    /// Answers a completion: the placeholder of the declared schema, and else
    /// the request and the connection it was called with.
    pub fn complete(&self, request: Json, conn: Option<&str>) -> (r: Json)
        ensures
            r@ == (match declared_schema(request@) {
                Some(schema) => schema_placeholder(schema),
                None => JsonView::Object(
                    seq![
                        ("completion"@, request@),
                        (
                            "connection"@,
                            text_or_null(opt_str(conn)),
                        ),
                    ],
                ),
            }),
    {
        match schema_of(&request) {
            Some(schema) => placeholder_for_schema(schema),
            None => {
                let mut entries: Vec<(String, Json)> = Vec::new();
                entries.push(member("completion", request.clone()));
                entries.push(member("connection", opt_str_json(conn)));
                assert(members(entries@) =~= seq![
                    ("completion"@, request@),
                    (
                        "connection"@,
                        text_or_null(opt_str(conn)),
                    ),
                ]);
                object(entries)
            },
        }
    }
}

/// The value has the named type.
pub open spec fn has_type(value: JsonView, name: Seq<char>) -> bool {
    &&& name == "string"@ ==> value is String
    &&& name == "number"@ || name == "integer"@ ==> value is Number
    &&& name == "boolean"@ ==> value is Bool
    &&& name == "object"@ ==> value is Object
    &&& name == "array"@ ==> value is Array
}

/// A placeholder is a value its subschema accepts: where the subschema lists
/// the values it allows, the placeholder is one of them, and else it has the
/// subschema's type.
pub proof fn placeholders_are_accepted(subschema: JsonView)
    ensures
        subschema.get("enum"@) matches Some(JsonView::Array(values)) ==> values.len() > 0
            ==> values.contains(type_placeholder(subschema)),
        subschema.text_at("type"@) matches Some(name) ==> first_allowed(subschema) is None
            ==> has_type(type_placeholder(subschema), name),
{
    reveal_strlit("string");
    reveal_strlit("number");
    reveal_strlit("integer");
    reveal_strlit("boolean");
    reveal_strlit("object");
    reveal_strlit("array");
    if first_allowed(subschema) is Some {
        let values = subschema.get("enum"@)->0->Array_0;
        assert(type_placeholder(subschema) == values[0]);
    }
    assert("string"@.len() == 6 && "number"@.len() == 6 && "integer"@.len() == 7
        && "boolean"@.len() == 7 && "object"@.len() == 6 && "array"@.len() == 5);
    assert("string"@[0] == 's' && "number"@[0] == 'n' && "object"@[0] == 'o');
    assert("integer"@[0] == 'i' && "boolean"@[0] == 'b');
}

/// Every property a schema declares is there in its placeholder, in order.
pub proof fn every_property_is_present(schema: JsonView, i: int)
    requires
        schema.get("properties"@) is Some,
        schema.get("properties"@)->0 is Object,
        0 <= i < schema.get("properties"@)->0->Object_0.len(),
    ensures
        schema_placeholder(schema) is Object,
        schema_placeholder(schema)->Object_0.len()
            == schema.get("properties"@)->0->Object_0.len(),
        schema_placeholder(schema)->Object_0[i].0 == schema.get("properties"@)->0->Object_0[i].0,
{
}

} // verus!
