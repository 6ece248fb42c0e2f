//! A JSON document as the addons read it: objects keep their entries in the
//! order the parser lists them (ascending key order), numbers keep the value
//! the scrapers read from them (an integer that fits `i64`).

use vstd::prelude::*;

use crate::text::str_eq;

verus! {

/// A parsed JSON value.
#[derive(Debug)]
pub enum JsonValue {
    Null,
    Bool(bool),
    /// The number as an `i64` when it is an integer that fits, else `None`.
    Number(Option<i64>),
    String(String),
    Array(Vec<JsonValue>),
    Object(Vec<(String, JsonValue)>),
}

/// The value of the first entry named `key`.
pub open spec fn entry_lookup(entries: Seq<(String, JsonValue)>, key: Seq<char>) -> Option<
    JsonValue,
>
    decreases entries.len(),
{
    if entries.len() == 0 {
        None
    } else if entries[0].0@ == key {
        Some(entries[0].1)
    } else {
        entry_lookup(entries.drop_first(), key)
    }
}

/// `Value::get(key)`: the member `key` of an object, `None` otherwise.
pub open spec fn spec_get(v: JsonValue, key: Seq<char>) -> Option<JsonValue> {
    match v {
        JsonValue::Object(entries) => entry_lookup(entries@, key),
        _ => None,
    }
}

/// `Value::as_str`.
pub open spec fn spec_as_str(v: JsonValue) -> Option<Seq<char>> {
    match v {
        JsonValue::String(s) => Some(s@),
        _ => None,
    }
}

/// `Value::as_object`: the entries of an object.
pub open spec fn spec_as_object(v: JsonValue) -> Option<Seq<(String, JsonValue)>> {
    match v {
        JsonValue::Object(entries) => Some(entries@),
        _ => None,
    }
}

/// `Value::get(i)` on an array.
pub open spec fn spec_at(v: JsonValue, i: int) -> Option<JsonValue> {
    match v {
        JsonValue::Array(items) => if 0 <= i < items@.len() {
            Some(items@[i])
        } else {
            None
        },
        _ => None,
    }
}

/// `Value::as_i64`.
pub open spec fn spec_as_i64(v: JsonValue) -> Option<i64> {
    match v {
        JsonValue::Number(n) => n,
        _ => None,
    }
}

/// `Index<&str>` on a value: the member, or `null` when there is none.
pub open spec fn spec_member(v: JsonValue, key: Seq<char>) -> JsonValue {
    match spec_get(v, key) {
        Some(m) => m,
        None => JsonValue::Null,
    }
}

/// The string member `key` of `v`, if there is one.
pub open spec fn spec_str_member(v: JsonValue, key: Seq<char>) -> Option<Seq<char>> {
    match spec_get(v, key) {
        Some(m) => spec_as_str(m),
        None => None,
    }
}

/// The value of the first entry named `key`.
pub fn lookup<'a>(entries: &'a Vec<(String, JsonValue)>, key: &str) -> (res: Option<&'a JsonValue>)
    ensures
        match res {
            Some(r) => entry_lookup(entries@, key@) == Some(*r),
            None => entry_lookup(entries@, key@) is None,
        },
{
    let mut i: usize = 0;
    assert(entries@.subrange(0, entries@.len() as int) =~= entries@);
    while i < entries.len()
        invariant
            0 <= i <= entries@.len(),
            entry_lookup(entries@.subrange(i as int, entries@.len() as int), key@) == entry_lookup(
                entries@,
                key@,
            ),
        decreases entries@.len() - i,
    {
        let ghost rest = entries@.subrange(i as int, entries@.len() as int);
        assert(rest[0] == entries@[i as int]);
        assert(rest.drop_first() =~= entries@.subrange(i + 1, entries@.len() as int));
        if str_eq(entries[i].0.as_str(), key) {
            return Some(&entries[i].1);
        }
        i = i + 1;
    }
    None
}

impl JsonValue {
    /// `Value::get(key)`.
    pub fn get(&self, key: &str) -> (res: Option<&JsonValue>)
        ensures
            match res {
                Some(r) => spec_get(*self, key@) == Some(*r),
                None => spec_get(*self, key@) is None,
            },
    {
        match self {
            JsonValue::Object(entries) => lookup(entries, key),
            _ => None,
        }
    }

    /// `Value::as_str`.
    pub fn as_str(&self) -> (res: Option<&String>)
        ensures
            match res {
                Some(s) => spec_as_str(*self) == Some(s@),
                None => spec_as_str(*self) is None,
            },
    {
        match self {
            JsonValue::String(s) => Some(s),
            _ => None,
        }
    }

    /// `Value::as_object`.
    pub fn as_object(&self) -> (res: Option<&Vec<(String, JsonValue)>>)
        ensures
            match res {
                Some(e) => spec_as_object(*self) == Some(e@),
                None => spec_as_object(*self) is None,
            },
    {
        match self {
            JsonValue::Object(entries) => Some(entries),
            _ => None,
        }
    }

    /// `Value::get(i)` on an array.
    pub fn at(&self, i: usize) -> (res: Option<&JsonValue>)
        ensures
            match res {
                Some(r) => spec_at(*self, i as int) == Some(*r),
                None => spec_at(*self, i as int) is None,
            },
    {
        match self {
            JsonValue::Array(items) => {
                if i < items.len() {
                    Some(&items[i])
                } else {
                    None
                }
            },
            _ => None,
        }
    }

    /// `Value::as_i64`.
    pub fn as_i64(&self) -> (res: Option<i64>)
        ensures
            res == spec_as_i64(*self),
    {
        match self {
            JsonValue::Number(n) => *n,
            _ => None,
        }
    }

    /// The string member `key`, if there is one.
    pub fn str_member(&self, key: &str) -> (res: Option<&String>)
        ensures
            match res {
                Some(s) => spec_str_member(*self, key@) == Some(s@),
                None => spec_str_member(*self, key@) is None,
            },
    {
        match self.get(key) {
            Some(m) => m.as_str(),
            None => None,
        }
    }
}

} // verus!
