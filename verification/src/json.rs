use vstd::prelude::*;

verus! {

/// A JSON number as `serde_json` holds it: a non-negative integer, a negative
/// integer, or a floating-point number kept in its decimal text form.
#[derive(Debug)]
pub enum JsonNumber {
    PosInt(u64),
    NegInt(i64),
    Float(String),
}

/// One `"key": value` member of a JSON object.
#[derive(Debug)]
pub struct JsonMember {
    pub key: String,
    pub value: JsonValue,
}

/// A JSON document. Objects keep their members in order; the documents that are
/// read from the wire have distinct keys.
#[derive(Debug)]
pub enum JsonValue {
    Null,
    Bool(bool),
    Number(JsonNumber),
    Text(String),
    Array(Vec<JsonValue>),
    Object(Vec<JsonMember>),
}

/// The value of the first member named `key`.
pub open spec fn member_lookup(ms: Seq<JsonMember>, key: Seq<char>) -> Option<JsonValue>
    decreases ms.len(),
{
    if ms.len() == 0 {
        None
    } else if ms[0].key@ == key {
        Some(ms[0].value)
    } else {
        member_lookup(ms.drop_first(), key)
    }
}

/// `value[key]` short of the `Null` that `serde_json` puts in place of a missing
/// member: `None` when `value` is not an object or has no such member.
pub open spec fn field_of(value: JsonValue, key: Seq<char>) -> Option<JsonValue> {
    match value {
        JsonValue::Object(ms) => member_lookup(ms@, key),
        _ => None,
    }
}

/// `field_of` lifted to an optional value.
pub open spec fn field_opt(value: Option<JsonValue>, key: Seq<char>) -> Option<JsonValue> {
    match value {
        Some(v) => field_of(v, key),
        None => None,
    }
}

/// `Value::as_str`.
pub open spec fn text_of(value: Option<JsonValue>) -> Option<Seq<char>> {
    match value {
        Some(JsonValue::Text(s)) => Some(s@),
        _ => None,
    }
}

/// `Value::as_bool`.
pub open spec fn bool_of(value: Option<JsonValue>) -> Option<bool> {
    match value {
        Some(JsonValue::Bool(b)) => Some(b),
        _ => None,
    }
}

/// `Value::as_array`.
pub open spec fn array_of(value: Option<JsonValue>) -> Option<Seq<JsonValue>> {
    match value {
        Some(JsonValue::Array(items)) => Some(items@),
        _ => None,
    }
}

/// `Value::as_u64`.
pub open spec fn u64_of(value: Option<JsonValue>) -> Option<u64> {
    match value {
        Some(JsonValue::Number(JsonNumber::PosInt(n))) => Some(n),
        _ => None,
    }
}

/// `Value::is_null` on `value[key]`: a missing member reads as `null`.
pub open spec fn is_null_or_missing(value: Option<JsonValue>) -> bool {
    match value {
        None => true,
        Some(JsonValue::Null) => true,
        _ => false,
    }
}

/// `value == true`.
pub open spec fn is_true(value: Option<JsonValue>) -> bool {
    value == Some(JsonValue::Bool(true))
}

/// The value behind an optional reference.
pub open spec fn deref_opt(v: Option<&JsonValue>) -> Option<JsonValue> {
    match v {
        Some(x) => Some(*x),
        None => None,
    }
}

fn string_eq_str(a: &String, b: &str) -> (r: bool)
    ensures
        r == (a@ == b@),
{
    let b = String::from_str(b);
    *a == b
}

impl JsonValue {
    /// The member `key` of an object.
    pub fn field(&self, key: &str) -> (r: Option<&JsonValue>)
        ensures
            r matches Some(v) ==> field_of(*self, key@) == Some(*v),
            r is None ==> field_of(*self, key@) is None,
    {
        match self {
            JsonValue::Object(ms) => {
                let mut i: usize = 0;
                assert(ms@.skip(0) =~= ms@);
                while i < ms.len()
                    invariant
                        i <= ms.len(),
                        field_of(*self, key@) == member_lookup(ms@, key@),
                        member_lookup(ms@, key@) == member_lookup(ms@.skip(i as int), key@),
                    decreases ms.len() - i,
                {
                    assert(ms@.skip(i as int).drop_first() =~= ms@.skip(i + 1));
                    assert(ms@.skip(i as int)[0] == ms@[i as int]);
                    if string_eq_str(&ms[i].key, key) {
                        return Some(&ms[i].value);
                    }
                    i = i + 1;
                }
                None
            },
            _ => None,
        }
    }
}

/// `v.as_str()`.
pub fn as_text(v: Option<&JsonValue>) -> (r: Option<&String>)
    ensures
        r matches Some(s) ==> text_of(deref_opt(v)) == Some(s@),
        r is None ==> text_of(deref_opt(v)) is None,
{
    match v {
        Some(JsonValue::Text(s)) => Some(s),
        _ => None,
    }
}

/// `v.as_bool()`.
pub fn as_bool(v: Option<&JsonValue>) -> (r: Option<bool>)
    ensures
        r == bool_of(deref_opt(v)),
{
    match v {
        Some(JsonValue::Bool(b)) => Some(*b),
        _ => None,
    }
}

/// `v.as_array()`.
pub fn as_array(v: Option<&JsonValue>) -> (r: Option<&Vec<JsonValue>>)
    ensures
        r matches Some(items) ==> array_of(deref_opt(v)) == Some(items@),
        r is None ==> array_of(deref_opt(v)) is None,
{
    match v {
        Some(JsonValue::Array(items)) => Some(items),
        _ => None,
    }
}

/// `v.as_u64()`.
pub fn as_u64(v: Option<&JsonValue>) -> (r: Option<u64>)
    ensures
        r == u64_of(deref_opt(v)),
{
    match v {
        Some(JsonValue::Number(JsonNumber::PosInt(n))) => Some(*n),
        _ => None,
    }
}

/// `v[key]` on an optional value.
pub fn field_of_opt<'a>(v: Option<&'a JsonValue>, key: &str) -> (r: Option<&'a JsonValue>)
    ensures
        deref_opt(r) == field_opt(deref_opt(v), key@),
{
    match v {
        Some(x) => x.field(key),
        None => None,
    }
}

/// `v.is_null()` where a missing member reads as `null`.
pub fn null_or_missing(v: Option<&JsonValue>) -> (r: bool)
    ensures
        r == is_null_or_missing(deref_opt(v)),
{
    match v {
        None => true,
        Some(JsonValue::Null) => true,
        _ => false,
    }
}

/// `v == true`.
pub fn json_is_true(v: Option<&JsonValue>) -> (r: bool)
    ensures
        r == is_true(deref_opt(v)),
{
    match v {
        Some(JsonValue::Bool(b)) => *b,
        _ => false,
    }
}

} // verus!
