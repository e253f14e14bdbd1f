//! JSON values: what they are, how they are read from a text, and how they are looked at.
use vstd::prelude::*;

use crate::text::same_text;

verus! {

/// A JSON number, as it can be read: as an unsigned integer, as a signed integer, and as
/// a floating-point number, given by its bits.
#[derive(Debug, Clone, Copy, PartialEq, Eq, Structural)]
pub struct JsonNumber {
    pub unsigned: Option<u64>,
    pub signed: Option<i64>,
    pub float_bits: Option<u64>,
}

/// What a JSON value is. An object is a list of named values.
pub enum JsonModel {
    Null,
    Bool(bool),
    Number(JsonNumber),
    Text(Seq<char>),
    Array(Seq<JsonModel>),
    Object(Seq<(Seq<char>, JsonModel)>),
}

/// A JSON value.
#[derive(Debug)]
pub enum Json {
    Null,
    Bool(bool),
    Number(JsonNumber),
    Text(String),
    Array(Vec<Json>),
    Object(Vec<(String, Json)>),
}

/// The value that a name has in a list of named values: the first of that name.
pub open spec fn named(fields: Seq<(Seq<char>, JsonModel)>, name: Seq<char>) -> Option<JsonModel>
    decreases fields.len(),
{
    if fields.len() == 0 {
        None
    } else if fields.first().0 == name {
        Some(fields.first().1)
    } else {
        named(fields.drop_first(), name)
    }
}

/// The member of an object; nothing where it has none of that name, or is no object.
pub open spec fn member(value: JsonModel, name: Seq<char>) -> Option<JsonModel> {
    match value {
        JsonModel::Object(fields) => named(fields, name),
        _ => None,
    }
}

/// The text that a value is.
pub open spec fn text_of(value: Option<JsonModel>) -> Option<Seq<char>> {
    match value {
        Some(JsonModel::Text(text)) => Some(text),
        _ => None,
    }
}

/// The unsigned integer that a value is.
pub open spec fn unsigned_of(value: Option<JsonModel>) -> Option<u64> {
    match value {
        Some(JsonModel::Number(number)) => number.unsigned,
        _ => None,
    }
}

/// What `serde_json` reads from a text, where the text is JSON.
pub uninterp spec fn json_text(text: Seq<char>) -> Option<JsonModel>;

/// What a tree of `serde_json` holds.
pub uninterp spec fn json_tree(value: serde_json::Value) -> JsonModel;

/// A JSON value of `serde_json`.
#[verifier::external_type_specification]
#[verifier::external_body]
pub struct ExValue(serde_json::Value);

/// The outermost part of a JSON value of `serde_json`.
enum Shape<'a> {
    Null,
    Bool(bool),
    Number(JsonNumber),
    Text(String),
    Array(&'a Vec<serde_json::Value>),
    Object(Vec<(&'a String, &'a serde_json::Value)>),
}

/// `serde_json::from_str`. What it reads is named `json_text`, and the tree that it gives
/// holds that.
#[verifier::external_body]
fn read_json(text: &str) -> (r: Option<serde_json::Value>)
    ensures
        match r {
            Some(value) => json_text(text@) == Some(json_tree(value)),
            None => json_text(text@) is None,
        },
{
    serde_json::from_str(text).ok()
}

/// The variants of `serde_json::Value`: what a tree holds is its outermost part and what
/// the trees below it hold. A number is what `as_u64`, `as_i64` and `as_f64` say of it;
/// the members of an object are listed as its iterator gives them.
#[verifier::external_body]
fn shape_of<'a>(value: &'a serde_json::Value) -> (r: Shape<'a>)
    ensures
        match (r, json_tree(*value)) {
            (Shape::Null, JsonModel::Null) => true,
            (Shape::Bool(b), JsonModel::Bool(m)) => b == m,
            (Shape::Number(n), JsonModel::Number(m)) => n == m,
            (Shape::Text(s), JsonModel::Text(m)) => s@ == m,
            (Shape::Array(items), JsonModel::Array(m)) => {
                &&& items@.len() == m.len()
                &&& forall|i: int| 0 <= i < m.len() ==> json_tree(items@[i]) == #[trigger] m[i]
            },
            (Shape::Object(fields), JsonModel::Object(m)) => {
                &&& fields@.len() == m.len()
                &&& forall|i: int|
                    0 <= i < m.len() ==> fields@[i].0@ == (#[trigger] m[i]).0 && json_tree(
                        *fields@[i].1,
                    ) == m[i].1
            },
            _ => false,
        },
{
    match value {
        serde_json::Value::Null => Shape::Null,
        serde_json::Value::Bool(b) => Shape::Bool(*b),
        serde_json::Value::Number(n) => Shape::Number(
            JsonNumber {
                unsigned: n.as_u64(),
                signed: n.as_i64(),
                float_bits: n.as_f64().map(|x| x.to_bits()),
            },
        ),
        serde_json::Value::String(s) => Shape::Text(s.clone()),
        serde_json::Value::Array(items) => Shape::Array(items),
        serde_json::Value::Object(fields) => Shape::Object(fields.iter().collect()),
    }
}

/// The value that a tree of `serde_json` holds.
fn json_of(value: &serde_json::Value) -> (r: Json)
    ensures
        r.model() == json_tree(*value),
    decreases json_tree(*value),
{
    match shape_of(value) {
        Shape::Null => Json::Null,
        Shape::Bool(b) => Json::Bool(b),
        Shape::Number(n) => Json::Number(n),
        Shape::Text(s) => Json::Text(s),
        Shape::Array(items) => {
            let ghost m = json_tree(*value)->Array_0;
            let mut list: Vec<Json> = Vec::new();
            for i in 0..items.len()
                invariant
                    json_tree(*value) == JsonModel::Array(m),
                    items@.len() == m.len(),
                    forall|j: int| 0 <= j < m.len() ==> json_tree(items@[j]) == #[trigger] m[j],
                    list@.len() == i,
                    forall|j: int| 0 <= j < i ==> (#[trigger] list@[j]).model() == m[j],
            {
                assert(json_tree(items@[i as int]) == m[i as int]);
                assert(decreases_to!(json_tree(*value) => json_tree(*value)->Array_0));
                assert(decreases_to!(json_tree(*value)->Array_0 => m[i as int]));
                let item = json_of(&items[i]);
                list.push(item);
            }
            let r = Json::Array(list);
            assert(r.model()->Array_0 =~= m);
            r
        },
        Shape::Object(fields) => {
            let ghost m = json_tree(*value)->Object_0;
            let mut list: Vec<(String, Json)> = Vec::new();
            for i in 0..fields.len()
                invariant
                    json_tree(*value) == JsonModel::Object(m),
                    fields@.len() == m.len(),
                    forall|j: int|
                        0 <= j < m.len() ==> fields@[j].0@ == (#[trigger] m[j]).0 && json_tree(
                            *fields@[j].1,
                        ) == m[j].1,
                    list@.len() == i,
                    forall|j: int|
                        0 <= j < i ==> (#[trigger] list@[j]).0@ == m[j].0 && list@[j].1.model()
                            == m[j].1,
            {
                assert(json_tree(*fields@[i as int].1) == m[i as int].1);
                assert(decreases_to!(json_tree(*value) => json_tree(*value)->Object_0));
                assert(decreases_to!(json_tree(*value)->Object_0 => m[i as int]));
                assert(decreases_to!(m[i as int] => m[i as int].1));
                let name: String = fields[i].0.clone();
                let item = json_of(fields[i].1);
                list.push((name, item));
            }
            let r = Json::Object(list);
            assert(r.model()->Object_0 =~= m);
            r
        },
    }
}

/// The JSON value that a text holds, or nothing where the text is no JSON.
pub fn parse_json(text: &str) -> (r: Option<Json>)
    ensures
        match r {
            Some(value) => json_text(text@) == Some(value.model()),
            None => json_text(text@) is None,
        },
{
    match read_json(text) {
        Some(value) => Some(json_of(&value)),
        None => None,
    }
}

impl Json {
    /// What the value is.
    pub open spec fn model(self) -> JsonModel
        decreases self,
    {
        match self {
            Json::Null => JsonModel::Null,
            Json::Bool(b) => JsonModel::Bool(b),
            Json::Number(n) => JsonModel::Number(n),
            Json::Text(s) => JsonModel::Text(s@),
            Json::Array(items) => JsonModel::Array(
                Seq::new(
                    items@.len(),
                    |i: int|
                        if 0 <= i < items@.len() {
                            items@[i].model()
                        } else {
                            JsonModel::Null
                        },
                ),
            ),
            Json::Object(fields) => JsonModel::Object(
                Seq::new(
                    fields@.len(),
                    |i: int|
                        if 0 <= i < fields@.len() {
                            (fields@[i].0@, fields@[i].1.model())
                        } else {
                            (seq![], JsonModel::Null)
                        },
                ),
            ),
        }
    }

    /// The member of that name.
    pub fn get(&self, name: &str) -> (r: Option<&Json>)
        ensures
            match r {
                Some(value) => member(self.model(), name@) == Some(value.model()),
                None => member(self.model(), name@) is None,
            },
    {
        match self {
            Json::Object(fields) => {
                let ghost m = self.model()->Object_0;
                assert(m.skip(0) =~= m);
                for i in 0..fields.len()
                    invariant
                        *self == Json::Object(*fields),
                        m == self.model()->Object_0,
                        named(m, name@) == named(m.skip(i as int), name@),
                {
                    assert(m.skip(i as int).first() == m[i as int]);
                    assert(m.skip(i as int).drop_first() =~= m.skip(i + 1));
                    if same_text(fields[i].0.as_str(), name) {
                        return Some(&fields[i].1);
                    }
                }
                None
            },
            _ => None,
        }
    }

    /// The text that the value is.
    pub fn as_text(&self) -> (r: Option<&str>)
        ensures
            match r {
                Some(text) => text_of(Some(self.model())) == Some(text@),
                None => text_of(Some(self.model())) is None,
            },
    {
        match self {
            Json::Text(s) => Some(s.as_str()),
            _ => None,
        }
    }

    /// The unsigned integer that the value is.
    pub fn as_unsigned(&self) -> (r: Option<u64>)
        ensures
            r == unsigned_of(Some(self.model())),
    {
        match self {
            Json::Number(n) => n.unsigned,
            _ => None,
        }
    }
}

} // verus!
