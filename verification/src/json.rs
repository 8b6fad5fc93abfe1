//! A plain model of JSON values, holding what the tools read from their input.
//!
//! Objects keep their entries in the order they are given (the order in which a
//! JSON map is walked); keys are expected to be distinct, and lookups return the
//! first entry with the key. A number holds the readings that the tools make of
//! it: as an unsigned integer, as a signed integer, and as a float truncated
//! towards zero into `u64` (saturating), which is what `n as u64`/`n as usize`
//! gives for the float reading.
use vstd::prelude::*;

verus! {

/// Readings of a JSON number.
pub struct JsonNumber {
    /// `Number::as_u64`
    pub as_u64: Option<u64>,
    /// `Number::as_i64`
    pub as_i64: Option<i64>,
    /// `Number::as_f64` truncated towards zero into `u64`, saturating.
    pub as_f64_trunc: u64,
}

/// A JSON value.
pub enum JsonValue {
    Null,
    Bool(bool),
    Number(JsonNumber),
    Str(String),
    Array(Vec<JsonValue>),
    Object(Vec<(String, JsonValue)>),
}

/// The value stored under `key` among `entries` (first match).
pub open spec fn lookup(entries: Seq<(String, JsonValue)>, key: Seq<char>) -> Option<JsonValue>
    decreases entries.len(),
{
    if entries.len() == 0 {
        None
    } else if entries[0].0@ == key {
        Some(entries[0].1)
    } else {
        lookup(entries.drop_first(), key)
    }
}

/// `Value::get(key)`: the member of an object, `None` for anything else.
pub open spec fn get(v: JsonValue, key: Seq<char>) -> Option<JsonValue> {
    match v {
        JsonValue::Object(entries) => lookup(entries@, key),
        _ => None,
    }
}

/// `and_then(Value::as_str)`
pub open spec fn as_str(v: Option<JsonValue>) -> Option<Seq<char>> {
    match v {
        Some(JsonValue::Str(s)) => Some(s@),
        _ => None,
    }
}

/// `and_then(Value::as_u64)`
pub open spec fn as_u64(v: Option<JsonValue>) -> Option<u64> {
    match v {
        Some(JsonValue::Number(n)) => n.as_u64,
        _ => None,
    }
}

/// `and_then(Value::as_i64)`
pub open spec fn as_i64(v: Option<JsonValue>) -> Option<i64> {
    match v {
        Some(JsonValue::Number(n)) => n.as_i64,
        _ => None,
    }
}

/// `and_then(Value::as_bool)`
pub open spec fn as_bool(v: Option<JsonValue>) -> Option<bool> {
    match v {
        Some(JsonValue::Bool(b)) => Some(b),
        _ => None,
    }
}

/// `and_then(Value::as_f64).map(|n| n as u64)`
pub open spec fn as_f64_trunc(v: Option<JsonValue>) -> Option<u64> {
    match v {
        Some(JsonValue::Number(n)) => Some(n.as_f64_trunc),
        _ => None,
    }
}

/// Field `key` of `v` as a string (`v.get(key).and_then(|x| x.as_str())`).
pub open spec fn str_field(v: JsonValue, key: Seq<char>) -> Option<Seq<char>> {
    as_str(get(v, key))
}

pub fn string_eq_chars(a: &String, key: &str) -> (r: bool)
    ensures
        r == (a@ == key@),
{
    let k = String::from_str(key);
    *a == k
}

fn lookup_exec<'a>(entries: &'a Vec<(String, JsonValue)>, key: &str) -> (r: Option<&'a JsonValue>)
    ensures
        match r {
            Some(x) => lookup(entries@, key@) == Some(*x),
            None => lookup(entries@, key@) is None,
        },
{
    let mut i: usize = 0;
    assert(entries@.skip(0) =~= entries@);
    while i < entries.len()
        invariant
            i <= entries@.len(),
            lookup(entries@, key@) == lookup(entries@.skip(i as int), key@),
        decreases entries.len() - i,
    {
        assert(entries@.skip(i as int).drop_first() =~= entries@.skip(i + 1));
        assert(entries@.skip(i as int)[0] == entries@[i as int]);
        if string_eq_chars(&entries[i].0, key) {
            return Some(&entries[i].1);
        }
        i = i + 1;
    }
    None
}

impl JsonValue {
    /// `Value::get`
    pub fn get(&self, key: &str) -> (r: Option<&JsonValue>)
        ensures
            match r {
                Some(x) => get(*self, key@) == Some(*x),
                None => get(*self, key@) is None,
            },
    {
        match self {
            JsonValue::Object(entries) => lookup_exec(entries, key),
            _ => None,
        }
    }

    /// `get(key).and_then(as_str)`, copied out.
    pub fn str_field(&self, key: &str) -> (r: Option<String>)
        ensures
            match r {
                Some(s) => str_field(*self, key@) == Some(s@),
                None => str_field(*self, key@) is None,
            },
    {
        match self.get(key) {
            Some(JsonValue::Str(s)) => Some(s.clone()),
            _ => None,
        }
    }

    /// `get(key).and_then(as_u64)`
    pub fn u64_field(&self, key: &str) -> (r: Option<u64>)
        ensures
            r == as_u64(get(*self, key@)),
    {
        match self.get(key) {
            Some(JsonValue::Number(n)) => n.as_u64,
            _ => None,
        }
    }

    /// `get(key).and_then(as_i64)`
    pub fn i64_field(&self, key: &str) -> (r: Option<i64>)
        ensures
            r == as_i64(get(*self, key@)),
    {
        match self.get(key) {
            Some(JsonValue::Number(n)) => n.as_i64,
            _ => None,
        }
    }

    /// `get(key).and_then(as_bool)`
    pub fn bool_field(&self, key: &str) -> (r: Option<bool>)
        ensures
            r == as_bool(get(*self, key@)),
    {
        match self.get(key) {
            Some(JsonValue::Bool(b)) => Some(*b),
            _ => None,
        }
    }

    /// `get(key).and_then(as_f64).map(|n| n as u64)`
    pub fn f64_trunc_field(&self, key: &str) -> (r: Option<u64>)
        ensures
            r == as_f64_trunc(get(*self, key@)),
    {
        match self.get(key) {
            Some(JsonValue::Number(n)) => Some(n.as_f64_trunc),
            _ => None,
        }
    }

    /// Whether `self` is a JSON object.
    pub fn is_object(&self) -> (r: bool)
        ensures
            r == (*self is Object),
    {
        match self {
            JsonValue::Object(_) => true,
            _ => false,
        }
    }
}

} // verus!
