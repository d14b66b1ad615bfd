//! A JSON value model. Parsing and string quoting are done by `serde_json`;
//! the library reads and builds values of its own type, whose view is the
//! mathematical `Json`.

use vstd::prelude::*;
use crate::text::str_eq;

verus! {

broadcast use vstd::string::group_string_axioms;

/// A JSON value as mathematics: numbers are kept as their canonical text.
pub enum Json {
    Null,
    Bool(bool),
    Number(Seq<char>),
    Str(Seq<char>),
    Array(Seq<Json>),
    Object(Seq<(Seq<char>, Json)>),
}

/// A JSON value. Objects keep their members in order; numbers are held as
/// their canonical text, so no value is lost when one is echoed back.
#[derive(Debug, PartialEq)]
pub enum JsonValue {
    Null,
    Bool(bool),
    Number(String),
    Str(String),
    Array(Vec<JsonValue>),
    Object(Vec<(String, JsonValue)>),
}

/// The mathematical value of a `JsonValue`.
pub open spec fn jv(v: JsonValue) -> Json
    decreases v,
{
    match v {
        JsonValue::Null => Json::Null,
        JsonValue::Bool(b) => Json::Bool(b),
        JsonValue::Number(n) => Json::Number(n@),
        JsonValue::Str(s) => Json::Str(s@),
        JsonValue::Array(a) => Json::Array(
            Seq::new(
                a.len() as nat,
                |i: int|
                    if 0 <= i < a.len() {
                        proof {
                            broadcast use vstd::std_specs::vec::axiom_vec_index_decreases;

                            assert(decreases_to!(a => a[i]));
                        }
                        jv(a[i])
                    } else {
                        Json::Null
                    },
            ),
        ),
        JsonValue::Object(o) => Json::Object(
            Seq::new(
                o.len() as nat,
                |i: int|
                    if 0 <= i < o.len() {
                        proof {
                            broadcast use vstd::std_specs::vec::axiom_vec_index_decreases;

                            assert(decreases_to!(o => o[i]));
                        }
                        (o[i].0@, jv(o[i].1))
                    } else {
                        (Seq::empty(), Json::Null)
                    },
            ),
        ),
    }
}

impl View for JsonValue {
    type V = Json;

    open spec fn view(&self) -> Json {
        jv(*self)
    }
}

// ── serde_json at the edge ──

#[verifier::external_type_specification]
#[verifier::external_body]
pub struct ExSerdeJsonValue(serde_json::Value);

/// What `serde_json::from_str::<serde_json::Value>` makes of a text: the
/// value, or the text of the parse error.
pub uninterp spec fn spec_parse_json(text: Seq<char>) -> Result<Json, Seq<char>>;

/// What `serde_json::to_string` writes for a `serde_json::Value` holding
/// this value: compact JSON text, object members in key order.
pub uninterp spec fn spec_json_to_string(v: Json) -> Seq<char>;

/// Moves a `serde_json::Value` into the library's `JsonValue`, one node for
/// one node (numbers by their `Display` text, object members in map order).
#[verifier::external_body]
fn from_serde(v: serde_json::Value) -> JsonValue {
    match v {
        serde_json::Value::Null => JsonValue::Null,
        serde_json::Value::Bool(b) => JsonValue::Bool(b),
        serde_json::Value::Number(n) => JsonValue::Number(n.to_string()),
        serde_json::Value::String(s) => JsonValue::Str(s),
        serde_json::Value::Array(a) => JsonValue::Array(a.into_iter().map(from_serde).collect()),
        serde_json::Value::Object(m) => JsonValue::Object(
            m.into_iter().map(|(k, x)| (k, from_serde(x))).collect(),
        ),
    }
}

/// Moves a `JsonValue` into a `serde_json::Value`, one node for one node
/// (a number text that `serde_json::Number` does not accept becomes null).
#[verifier::external_body]
fn to_serde(v: &JsonValue) -> serde_json::Value {
    match v {
        JsonValue::Null => serde_json::Value::Null,
        JsonValue::Bool(b) => serde_json::Value::Bool(*b),
        JsonValue::Number(n) => n.parse::<serde_json::Number>().map(serde_json::Value::Number)
            .unwrap_or(serde_json::Value::Null),
        JsonValue::Str(s) => serde_json::Value::String(s.clone()),
        JsonValue::Array(a) => serde_json::Value::Array(a.iter().map(to_serde).collect()),
        JsonValue::Object(m) => serde_json::Value::Object(
            m.iter().map(|(k, x)| (k.clone(), to_serde(x))).collect(),
        ),
    }
}

/// Parses JSON text with `serde_json::from_str::<serde_json::Value>`. The
/// outcome, value or error text, is named `spec_parse_json`; what it is on
/// given text is not stated here.
#[verifier::external_body]
pub fn parse_json(text: &str) -> (r: Result<JsonValue, String>)
    ensures
        match r {
            Ok(v) => spec_parse_json(text@) == Ok::<Json, Seq<char>>(v@),
            Err(e) => spec_parse_json(text@) == Err::<Json, Seq<char>>(e@),
        },
{
    match serde_json::from_str::<serde_json::Value>(text) {
        Ok(v) => Ok(from_serde(v)),
        Err(e) => Err(e.to_string()),
    }
}

/// Compact JSON text of a value, written by `serde_json::to_string` (which
/// cannot fail on a `serde_json::Value`). The text is named
/// `spec_json_to_string`.
#[verifier::external_body]
pub fn json_to_string(v: &JsonValue) -> (r: String)
    ensures
        r@ == spec_json_to_string(v@),
{
    match serde_json::to_string(&to_serde(v)) {
        Ok(t) => t,
        Err(_) => String::new(),
    }
}

// ── Reading values ──

/// The value of the first member named `key`, if any.
pub open spec fn member_lookup(members: Seq<(Seq<char>, Json)>, key: Seq<char>) -> Option<Json>
    decreases members.len(),
{
    if members.len() == 0 {
        None
    } else if members[0].0 == key {
        Some(members[0].1)
    } else {
        member_lookup(members.drop_first(), key)
    }
}

/// `value.get(key)`: the member of an object named `key`; `None` for a
/// missing key or a value that is not an object.
pub open spec fn json_get(j: Json, key: Seq<char>) -> Option<Json> {
    match j {
        Json::Object(members) => member_lookup(members, key),
        _ => None,
    }
}

/// `json_get` through an `Option`.
pub open spec fn json_get_opt(j: Option<Json>, key: Seq<char>) -> Option<Json> {
    match j {
        Some(x) => json_get(x, key),
        None => None,
    }
}

/// The text of a JSON string.
pub open spec fn json_str(j: Option<Json>) -> Option<Seq<char>> {
    match j {
        Some(Json::Str(s)) => Some(s),
        _ => None,
    }
}

pub proof fn lemma_member_lookup_index(members: Seq<(Seq<char>, Json)>, key: Seq<char>, i: int)
    requires
        0 <= i < members.len(),
        members[i].0 == key,
        forall|k: int| 0 <= k < i ==> members[k].0 != key,
    ensures
        member_lookup(members, key) == Some(members[i].1),
    decreases i,
{
    if i > 0 {
        lemma_member_lookup_index(members.drop_first(), key, i - 1);
    }
}

pub proof fn lemma_member_lookup_none(members: Seq<(Seq<char>, Json)>, key: Seq<char>)
    requires
        forall|k: int| 0 <= k < members.len() ==> members[k].0 != key,
    ensures
        member_lookup(members, key) is None,
    decreases members.len(),
{
    if members.len() > 0 {
        lemma_member_lookup_none(members.drop_first(), key);
    }
}

/// The view of an object is the view of its members.
pub proof fn lemma_object_view(o: Vec<(String, JsonValue)>)
    ensures
        JsonValue::Object(o)@ == Json::Object(members_view(o@)),
{
    let m = match JsonValue::Object(o)@ {
        Json::Object(s) => s,
        _ => Seq::empty(),
    };
    assert(m =~= members_view(o@));
}

/// The view of an array is the view of its items.
pub proof fn lemma_array_view(a: Vec<JsonValue>)
    ensures
        JsonValue::Array(a)@ == Json::Array(items_view(a@)),
{
    let m = match JsonValue::Array(a)@ {
        Json::Array(s) => s,
        _ => Seq::empty(),
    };
    assert(m =~= items_view(a@));
}

/// The views of array items.
pub open spec fn items_view(a: Seq<JsonValue>) -> Seq<Json> {
    a.map_values(|x: JsonValue| jv(x))
}

/// A copy of a value.
pub fn clone_value(v: &JsonValue) -> (r: JsonValue)
    ensures
        r@ == v@,
    decreases v,
{
    match v {
        JsonValue::Null => JsonValue::Null,
        JsonValue::Bool(b) => JsonValue::Bool(*b),
        JsonValue::Number(n) => JsonValue::Number(n.clone()),
        JsonValue::Str(t) => JsonValue::Str(t.clone()),
        JsonValue::Array(a) => {
            let mut out: Vec<JsonValue> = Vec::new();
            let mut i: usize = 0;
            while i < a.len()
                invariant
                    i <= a@.len(),
                    *v == JsonValue::Array(*a),
                    items_view(out@) =~= items_view(a@).take(i as int),
                decreases a@.len() - i,
            {
                proof {
                    broadcast use vstd::std_specs::vec::axiom_vec_index_decreases;

                    assert(decreases_to!(*v => (*v)->Array_0));
                    assert(decreases_to!((*v)->Array_0 => (*v)->Array_0[i as int]));
                }
                let x = clone_value(&a[i]);
                let ghost before = out@;
                out.push(x);
                assert(items_view(out@) =~= items_view(before).push(x@));
                assert(items_view(a@).take(i + 1) =~= items_view(a@).take(i as int).push(a@[i as int]@));
                i = i + 1;
            }
            proof {
                lemma_array_view(*a);
                lemma_array_view(out);
                assert(items_view(a@).take(a@.len() as int) =~= items_view(a@));
            }
            JsonValue::Array(out)
        },
        JsonValue::Object(o) => {
            let mut out: Vec<(String, JsonValue)> = Vec::new();
            let mut i: usize = 0;
            while i < o.len()
                invariant
                    i <= o@.len(),
                    *v == JsonValue::Object(*o),
                    members_view(out@) =~= members_view(o@).take(i as int),
                decreases o@.len() - i,
            {
                proof {
                    broadcast use vstd::std_specs::vec::axiom_vec_index_decreases;

                    assert(decreases_to!(*v => (*v)->Object_0));
                    assert(decreases_to!((*v)->Object_0 => (*v)->Object_0[i as int]));
                    assert(decreases_to!((*v)->Object_0[i as int] => (*v)->Object_0[i as int].1));
                }
                let x = clone_value(&o[i].1);
                let k = o[i].0.clone();
                let ghost before = out@;
                out.push((k, x));
                assert(members_view(out@) =~= members_view(before).push((k@, x@)));
                assert(members_view(o@).take(i + 1) =~= members_view(o@).take(i as int).push(
                    (o@[i as int].0@, o@[i as int].1@),
                ));
                i = i + 1;
            }
            proof {
                lemma_object_view(*o);
                lemma_object_view(out);
                assert(members_view(o@).take(o@.len() as int) =~= members_view(o@));
            }
            JsonValue::Object(out)
        },
    }
}

/// A copy of a member list.
pub fn clone_members(o: &Vec<(String, JsonValue)>) -> (r: Vec<(String, JsonValue)>)
    ensures
        members_view(r@) == members_view(o@),
{
    let mut out: Vec<(String, JsonValue)> = Vec::new();
    let mut i: usize = 0;
    while i < o.len()
        invariant
            i <= o@.len(),
            members_view(out@) =~= members_view(o@).take(i as int),
        decreases o@.len() - i,
    {
        let x = clone_value(&o[i].1);
        let k = o[i].0.clone();
        let ghost before = out@;
        out.push((k, x));
        assert(members_view(out@) =~= members_view(before).push((k@, x@)));
        assert(members_view(o@).take(i + 1) =~= members_view(o@).take(i as int).push(
            (o@[i as int].0@, o@[i as int].1@),
        ));
        i = i + 1;
    }
    assert(members_view(o@).take(o@.len() as int) =~= members_view(o@));
    out
}

/// The views of object members.
pub open spec fn members_view(o: Seq<(String, JsonValue)>) -> Seq<(Seq<char>, Json)> {
    o.map_values(|m: (String, JsonValue)| (m.0@, jv(m.1)))
}

/// The value of the first member named `key`.
pub fn lookup_member<'a>(o: &'a Vec<(String, JsonValue)>, key: &str) -> (r: Option<&'a JsonValue>)
    ensures
        match r {
            Some(x) => member_lookup(members_view(o@), key@) == Some(x@),
            None => member_lookup(members_view(o@), key@) is None,
        },
{
    let ghost members = members_view(o@);
    let mut i: usize = 0;
    while i < o.len()
        invariant
            i <= o@.len(),
            members == members_view(o@),
            forall|k: int| 0 <= k < i ==> members[k].0 != key@,
        decreases o@.len() - i,
    {
        if str_eq(o[i].0.as_str(), key) {
            proof {
                lemma_member_lookup_index(members, key@, i as int);
            }
            return Some(&o[i].1);
        }
        i = i + 1;
    }
    proof {
        lemma_member_lookup_none(members, key@);
    }
    None
}

/// The member of an object named `key` (serde_json's `Value::get`).
pub fn get<'a>(v: &'a JsonValue, key: &str) -> (r: Option<&'a JsonValue>)
    ensures
        match r {
            Some(x) => json_get(v@, key@) == Some(x@),
            None => json_get(v@, key@) is None,
        },
{
    match v {
        JsonValue::Object(o) => {
            let ghost m = match v@ {
                Json::Object(s) => s,
                _ => Seq::empty(),
            };
            assert(m =~= members_view(o@));
            lookup_member(o, key)
        },
        _ => None,
    }
}

/// `get` through an `Option`.
pub fn get_opt<'a>(v: Option<&'a JsonValue>, key: &str) -> (r: Option<&'a JsonValue>)
    ensures
        match r {
            Some(x) => json_get_opt(opt_view(v), key@) == Some(x@),
            None => json_get_opt(opt_view(v), key@) is None,
        },
{
    match v {
        Some(x) => get(x, key),
        None => None,
    }
}

/// The view of an optional reference.
pub open spec fn opt_view(v: Option<&JsonValue>) -> Option<Json> {
    match v {
        Some(x) => Some(x@),
        None => None,
    }
}

/// The text of a string value (serde_json's `Value::as_str`).
pub fn as_str<'a>(v: Option<&'a JsonValue>) -> (r: Option<&'a str>)
    ensures
        match r {
            Some(s) => json_str(opt_view(v)) == Some(s@),
            None => json_str(opt_view(v)) is None,
        },
{
    match v {
        Some(JsonValue::Str(s)) => Some(s.as_str()),
        _ => None,
    }
}

} // verus!
