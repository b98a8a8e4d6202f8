//! JSON values: what they hold, and how `serde_json` reads and writes them.
use crate::text;
use serde_json::Value;
use vstd::prelude::*;

verus! {

/// A JSON value of `serde_json`.
#[verifier::external_type_specification]
#[verifier::external_body]
pub struct ExValue(serde_json::Value);

/// What a JSON value holds. A number that is no integer is an `f64`, and stands
/// here by its bits.
pub enum Json {
    Null,
    Bool(bool),
    Int(int),
    Float(u64),
    Text(Seq<char>),
    List(Seq<Json>),
    Object(Map<Seq<char>, Json>),
}

/// What a `Value` holds.
pub uninterp spec fn json(value: Value) -> Json;

/// What `serde_json::from_slice` makes of some bytes: what the value holds, or
/// the words of the error.
pub uninterp spec fn parsed(body: Seq<u8>) -> Result<Json, Seq<char>>;

/// What `serde_json::to_vec` makes of a value that holds this: its bytes, or the
/// words of the error.
pub uninterp spec fn encoded(j: Json) -> Result<Seq<u8>, Seq<char>>;

/// A value that `serde_json` reads back as it wrote it: every number in it is an
/// integer, and no more than `depth` lists and objects lie
/// within each other.
pub open spec fn plain(j: Json, depth: nat) -> bool
    decreases depth,
{
    match j {
        Json::Float(_) => false,
        Json::List(items) => depth > 0 && forall|i: int|
            0 <= i < items.len() ==> plain(#[trigger] items[i], (depth - 1) as nat),
        Json::Object(members) => depth > 0 && forall|key: Seq<char>|
            members.contains_key(key) ==> plain(#[trigger] members[key], (depth - 1) as nat),
        _ => true,
    }
}

/// How many lists and objects the parser takes within each other.
pub const MAX_NESTING: u8 = 127;

/// The parser reads some bytes as a value that holds this.
pub open spec fn reads_as(body: Seq<u8>, j: Json) -> bool {
    parsed(body) matches Ok(k) && k == j
}

/// `serde_json::from_slice` into a `Value` depends on the bytes alone: it gives
/// a value, or an error whose words do.
#[verifier::external_body]
pub(crate) fn parse(body: &[u8]) -> (r: Result<Value, String>)
    ensures
        (match r {
            Ok(value) => Ok(json(value)),
            Err(words) => Err(words@),
        }) == parsed(body@),
{
    serde_json::from_slice::<Value>(body).map_err(|e| e.to_string())
}

/// `serde_json::to_vec` of a `Value` depends on what the value holds alone. A
/// value whose numbers are integers and that is not nested too deep becomes
/// bytes, at least one, which `serde_json::from_slice` reads as that value.
#[verifier::external_body]
pub(crate) fn encode(value: &Value) -> (r: Result<Vec<u8>, String>)
    ensures
        (match r {
            Ok(body) => Ok(body@),
            Err(words) => Err(words@),
        }) == encoded(json(*value)),
        plain(json(*value), MAX_NESTING as nat) ==> r is Ok && r->Ok_0@.len() > 0 && reads_as(
            r->Ok_0@,
            json(*value),
        ),
{
    serde_json::to_vec(value).map_err(|e| e.to_string())
}

/// `Value::get` and `Value::as_str`: the member of an object under a key, where
/// there is one and it is a string.
#[verifier::external_body]
pub(crate) fn text_member(value: &Value, key: &str) -> (r: Option<String>)
    ensures
        text::text_of(r) == member(json(*value), key@),
{
    value.get(key).and_then(|m| m.as_str()).map(|s| s.to_string())
}

/// The text under a key of an object.
pub open spec fn member(j: Json, key: Seq<char>) -> Option<Seq<char>> {
    match j {
        Json::Object(members) => if members.contains_key(key) {
            match members[key] {
                Json::Text(t) => Some(t),
                _ => None,
            }
        } else {
            None
        },
        _ => None,
    }
}

/// `Value::from` of a text holds that text.
#[verifier::external_body]
pub(crate) fn text_value(s: &str) -> (r: Value)
    ensures
        json(r) == Json::Text(s@),
{
    Value::from(s)
}

/// `Value::from` of an integer holds that integer.
#[verifier::external_body]
pub(crate) fn int_value(n: u64) -> (r: Value)
    ensures
        json(r) == Json::Int(n as int),
{
    Value::from(n)
}

/// `Value::from` of a truth value holds that truth value.
#[verifier::external_body]
pub(crate) fn bool_value(b: bool) -> (r: Value)
    ensures
        json(r) == Json::Bool(b),
{
    Value::from(b)
}

/// What some values hold.
pub open spec fn contents(items: Seq<Value>) -> Seq<Json> {
    Seq::new(items.len(), |i: int| json(items[i]))
}

/// `Value::from` of a vector holds its values in order.
#[verifier::external_body]
pub(crate) fn list_value(items: Vec<Value>) -> (r: Value)
    ensures
        json(r) == Json::List(contents(items@)),
{
    Value::from(items)
}

/// The members that some pairs give; of two under the same key, the later.
pub open spec fn members(pairs: Seq<(String, Value)>) -> Map<Seq<char>, Json>
    decreases pairs.len(),
{
    if pairs.len() == 0 {
        Map::empty()
    } else {
        members(pairs.drop_last()).insert(pairs.last().0@, json(pairs.last().1))
    }
}

/// Pairs collected into a `Value` are an object with those members.
#[verifier::external_body]
pub(crate) fn object_value(pairs: Vec<(String, Value)>) -> (r: Value)
    ensures
        json(r) == Json::Object(members(pairs@)),
{
    pairs.into_iter().collect::<Value>()
}

/// How a `Value` that holds this is displayed.
pub uninterp spec fn displayed(j: Json) -> Seq<char>;

/// The `Display` formatting of a `Value` depends on what it holds alone.
#[verifier::external_body]
pub(crate) fn display(value: &Value) -> (r: String)
    ensures
        r@ == displayed(json(*value)),
{
    value.to_string()
}

/// Appends a member to the pairs of an object.
pub(crate) fn with_member(pairs: &mut Vec<(String, Value)>, key: &str, value: Value)
    ensures
        members(final(pairs)@) == members(old(pairs)@).insert(key@, json(value)),
{
    pairs.push((key.to_string(), value));
    assert(pairs@.drop_last() =~= old(pairs)@);
}

} // verus!
