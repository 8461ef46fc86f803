//! JSON values and their text.
//!
//! The values and their text are those of the outside crate `serde_json`; contracts
//! speak of the model [`Json`] of a value.

use vstd::prelude::*;

verus! {

/// A JSON value of `serde_json`.
#[verifier::external_type_specification]
#[verifier::external_body]
pub struct ExValue(serde_json::Value);

/// A failure of `serde_json`.
#[verifier::external_type_specification]
#[verifier::external_body]
pub struct ExError(serde_json::Error);

/// Model of a JSON value.
pub enum Json {
    Bool(bool),
    Number(nat),
    Text(Seq<char>),
    List(Seq<Json>),
    Object(Map<Seq<char>, Json>),
}

/// What a JSON value holds.
pub uninterp spec fn json_of(value: serde_json::Value) -> Json;

/// Text that `serde_json::to_string` gives for a value that holds `json`.
pub uninterp spec fn json_text(json: Json) -> Seq<char>;

/// What the values of a list hold.
pub open spec fn json_list(v: Seq<serde_json::Value>) -> Seq<Json> {
    v.map_values(|x: serde_json::Value| json_of(x))
}

/// Names of fields with what their values hold.
pub open spec fn json_fields(v: Seq<(String, serde_json::Value)>) -> Seq<(Seq<char>, Json)> {
    v.map_values(|f: (String, serde_json::Value)| (f.0@, json_of(f.1)))
}

/// Whether no name stands twice among fields.
pub open spec fn distinct_names(fields: Seq<(Seq<char>, Json)>) -> bool {
    forall|i: int, j: int|
        0 <= i < j < fields.len() ==> (#[trigger] fields[i]).0 != (#[trigger] fields[j]).0
}

/// Object made of fields with distinct names.
pub open spec fn object_of(fields: Seq<(Seq<char>, Json)>) -> Map<Seq<char>, Json>
    decreases fields.len(),
{
    if fields.len() == 0 {
        Map::empty()
    } else {
        object_of(fields.drop_last()).insert(fields.last().0, fields.last().1)
    }
}

/// Texts as JSON values.
pub open spec fn json_texts(v: Seq<Seq<char>>) -> Seq<Json> {
    v.map_values(|s: Seq<char>| Json::Text(s))
}

/// `serde_json::Value::Bool`.
#[verifier::external_body]
pub(crate) fn json_bool(b: bool) -> (r: serde_json::Value)
    ensures
        json_of(r) == Json::Bool(b),
{
    serde_json::Value::Bool(b)
}

/// `serde_json::Value::from` for a whole number.
#[verifier::external_body]
pub(crate) fn json_number(n: u64) -> (r: serde_json::Value)
    ensures
        json_of(r) == Json::Number(n as nat),
{
    serde_json::Value::from(n)
}

/// `serde_json::Value::String`.
#[verifier::external_body]
pub(crate) fn json_string(s: String) -> (r: serde_json::Value)
    ensures
        json_of(r) == Json::Text(s@),
{
    serde_json::Value::String(s)
}

/// `serde_json::Value::Array`.
#[verifier::external_body]
pub(crate) fn json_array(v: Vec<serde_json::Value>) -> (r: serde_json::Value)
    ensures
        json_of(r) == Json::List(json_list(v@)),
{
    serde_json::Value::Array(v)
}

/// `serde_json::Value::Object`, its map collected from fields with distinct names.
#[verifier::external_body]
pub(crate) fn json_object(fields: Vec<(String, serde_json::Value)>) -> (r: serde_json::Value)
    requires
        distinct_names(json_fields(fields@)),
    ensures
        json_of(r) == Json::Object(object_of(json_fields(fields@))),
{
    serde_json::Value::Object(fields.into_iter().collect())
}

/// `serde_json::to_string` for a JSON value. It cannot fail: the keys of a JSON value
/// are strings, its numbers are finite, and the text is written to memory.
#[verifier::external_body]
pub(crate) fn json_string_of(value: &serde_json::Value) -> (r: Result<String, serde_json::Error>)
    ensures
        r is Ok,
        r->Ok_0@ == json_text(json_of(*value)),
{
    serde_json::to_string(value)
}

/// An object has the names of its fields.
proof fn lemma_object_names(fields: Seq<(Seq<char>, Json)>)
    ensures
        forall|i: int|
            0 <= i < fields.len() ==> object_of(fields).contains_key((#[trigger] fields[i]).0),
    decreases fields.len(),
{
    if fields.len() > 0 {
        lemma_object_names(fields.drop_last());
        assert forall|i: int| 0 <= i < fields.len() implies object_of(fields).contains_key(
            (#[trigger] fields[i]).0,
        ) by {
            if i < fields.len() - 1 {
                assert(fields.drop_last()[i] == fields[i]);
            }
        }
    }
}

/// Add a field with a new name.
pub(crate) fn add_field(
    fields: &mut Vec<(String, serde_json::Value)>,
    name: &str,
    value: serde_json::Value,
)
    requires
        distinct_names(json_fields(old(fields)@)),
        !object_of(json_fields(old(fields)@)).contains_key(name@),
    ensures
        distinct_names(json_fields(final(fields)@)),
        object_of(json_fields(final(fields)@)) == object_of(json_fields(old(fields)@)).insert(
            name@,
            json_of(value),
        ),
{
    let ghost before = json_fields(fields@);
    let ghost json = json_of(value);
    let key = name.to_string();
    fields.push((key, value));
    proof {
        assert(json_fields(fields@) == before.push((name@, json)));
        assert(before.push((name@, json)).drop_last() == before);
        lemma_object_names(before);
    }
}

/// List of texts as JSON text, such as the sources of an event subscription.
pub fn texts_to_json(v: &Vec<String>) -> (r: Result<String, serde_json::Error>)
    ensures
        r is Ok,
        r->Ok_0@ == json_text(Json::List(json_texts(crate::text::texts(v@)))),
{
    let mut list: Vec<serde_json::Value> = Vec::new();
    let n: usize = v.len();
    let mut i: usize = 0;
    while i < n
        invariant
            i <= n,
            n == v@.len(),
            list@.len() == i,
            forall|k: int| 0 <= k < i ==> json_of(#[trigger] list@[k]) == Json::Text(v@[k]@),
        decreases n - i,
    {
        list.push(json_string(v[i].clone()));
        i = i + 1;
    }
    assert(json_list(list@) =~= json_texts(crate::text::texts(v@)));
    json_string_of(&json_array(list))
}

/// An object has the value of each of its fields and no other names.
pub proof fn law_object_of_fields(fields: Seq<(Seq<char>, Json)>, name: Seq<char>)
    requires
        distinct_names(fields),
    ensures
        object_of(fields).contains_key(name) <==> exists|k: int|
            0 <= k < fields.len() && (#[trigger] fields[k]).0 == name,
        forall|k: int|
            0 <= k < fields.len() ==> object_of(fields)[(#[trigger] fields[k]).0] == fields[k].1,
    decreases fields.len(),
{
    lemma_object_names(fields);
    if fields.len() > 0 {
        let rest = fields.drop_last();
        assert(distinct_names(rest)) by {
            assert forall|i: int, j: int| 0 <= i < j < rest.len() implies (#[trigger] rest[i]).0
                != (#[trigger] rest[j]).0 by {
                assert(rest[i] == fields[i] && rest[j] == fields[j]);
            }
        }
        law_object_of_fields(rest, name);
        assert forall|k: int| 0 <= k < fields.len() implies object_of(fields)[(
        #[trigger] fields[k]).0] == fields[k].1 by {
            if k < rest.len() {
                assert(rest[k] == fields[k]);
                assert(fields[k].0 != fields[fields.len() - 1].0);
            }
        }
        if object_of(fields).contains_key(name) {
            if name == fields.last().0 {
                assert(fields[fields.len() - 1].0 == name);
            } else {
                let k = choose|k: int| 0 <= k < rest.len() && (#[trigger] rest[k]).0 == name;
                assert(fields[k].0 == name);
            }
        }
    }
}

/// A list of texts is a JSON list of the same texts in the same order.
pub proof fn law_texts_list(v: Seq<Seq<char>>)
    ensures
        json_texts(v).len() == v.len(),
        forall|k: int| 0 <= k < v.len() ==> #[trigger] json_texts(v)[k] == Json::Text(v[k]),
{
}

} // verus!
