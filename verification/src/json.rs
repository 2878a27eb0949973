//! A JSON value as the library reads it: what the bot's message events and
//! the upload service's replies carry, once they are parsed.
use vstd::prelude::*;

use crate::text::{dec, dec_int, i64_to_string, owned, trim, trim_vec, u64_to_string};

verus! {

/// A JSON number. A number that is neither a whole `u64` nor a negative
/// `i64` keeps its text.
#[derive(Debug, Clone, PartialEq, Eq)]
pub enum JsonNumber {
    PosInt(u64),
    NegInt(i64),
    Float(String),
}

/// A parsed JSON value. An object keeps its members in order; a key that
/// occurs twice stands for its last value.
#[derive(Debug)]
pub enum JsonValue {
    Null,
    Bool(bool),
    Number(JsonNumber),
    Str(String),
    Array(Vec<JsonValue>),
    Object(Vec<(String, JsonValue)>),
}

/// Index of the last member of `members[..n]` named `key`.
pub open spec fn last_member(members: Seq<(String, JsonValue)>, key: Seq<char>, n: int) -> Option<
    int,
>
    decreases n,
{
    if n <= 0 || n > members.len() {
        None
    } else if members[n - 1].0@ == key {
        Some(n - 1)
    } else {
        last_member(members, key, n - 1)
    }
}

/// The member `key` of an object (`Value::get`).
pub open spec fn member(v: JsonValue, key: Seq<char>) -> Option<JsonValue> {
    match v {
        JsonValue::Object(members) => match last_member(members@, key, members@.len() as int) {
            Some(i) => Some(members@[i].1),
            None => None,
        },
        _ => None,
    }
}

/// The text of a string value (`Value::as_str`).
pub open spec fn as_text(v: JsonValue) -> Option<Seq<char>> {
    match v {
        JsonValue::Str(s) => Some(s@),
        _ => None,
    }
}

/// A string as it is, or a whole number in decimal.
pub open spec fn json_string_spec(v: JsonValue) -> Option<Seq<char>> {
    match v {
        JsonValue::Str(s) => Some(s@),
        JsonValue::Number(JsonNumber::PosInt(n)) => Some(dec(n as nat)),
        JsonValue::Number(JsonNumber::NegInt(n)) => Some(dec_int(n as int)),
        _ => None,
    }
}

/// The trimmed text, when something is left of it.
pub open spec fn nonempty_spec(s: Seq<char>) -> Option<Seq<char>> {
    let t = trim(s);
    if t.len() == 0 {
        None
    } else {
        Some(t)
    }
}

/// A text that `nonempty_spec` gives is never empty.
pub proof fn lemma_nonempty_spec_len(o: Option<String>)
    ensures
        match o {
            Some(s) => match nonempty_spec(s@) {
                Some(t) => t.len() > 0,
                None => true,
            },
            None => true,
        },
{
}

pub open spec fn opt_text(o: Option<String>) -> Option<Seq<char>> {
    match o {
        Some(s) => Some(s@),
        None => None,
    }
}

/// `(string or number) then nonempty`.
pub open spec fn member_text(v: Option<JsonValue>, key: Seq<char>) -> Option<Seq<char>> {
    match v {
        None => None,
        Some(d) => match member(d, key) {
            None => None,
            Some(x) => match json_string_spec(x) {
                None => None,
                Some(s) => nonempty_spec(s),
            },
        },
    }
}

/// A whole number that fits in an `i64` (`Value::as_i64`).
pub open spec fn as_i64_spec(v: JsonValue) -> Option<i64> {
    match v {
        JsonValue::Number(JsonNumber::PosInt(n)) => if n <= i64::MAX {
            Some(n as i64)
        } else {
            None
        },
        JsonValue::Number(JsonNumber::NegInt(n)) => Some(n),
        _ => None,
    }
}

impl JsonValue {
    /// A whole number that fits in an `i64`.
    pub fn as_i64(&self) -> (r: Option<i64>)
        ensures
            r == as_i64_spec(*self),
    {
        match self {
            JsonValue::Number(JsonNumber::PosInt(n)) => {
                if *n <= 9223372036854775807u64 {
                    Some(*n as i64)
                } else {
                    None
                }
            },
            JsonValue::Number(JsonNumber::NegInt(n)) => Some(*n),
            _ => None,
        }
    }

    /// The member `key` of an object.
    pub fn get(&self, key: &str) -> (r: Option<&JsonValue>)
        ensures
            match r {
                Some(x) => member(*self, key@) == Some(*x),
                None => member(*self, key@) is None,
            },
    {
        match self {
            JsonValue::Object(members) => {
                let mut n = members.len();
                while n > 0
                    invariant
                        n <= members@.len(),
                        *self == JsonValue::Object(*members),
                        last_member(members@, key@, n as int) == last_member(
                            members@,
                            key@,
                            members@.len() as int,
                        ),
                    decreases n,
                {
                    let k = &members[n - 1].0;
                    if crate::text::same_text(k.as_str(), key) {
                        assert(members@[n - 1].0@ == key@);
                        assert(last_member(members@, key@, n as int) == Some((n - 1) as int));
                        assert(member(*self, key@) == Some(members@[n - 1].1));
                        return Some(&members[n - 1].1);
                    }
                    n = n - 1;
                }
                None
            },
            _ => None,
        }
    }

    /// The text of a string value.
    pub fn as_str(&self) -> (r: Option<&str>)
        ensures
            match r {
                Some(s) => as_text(*self) == Some(s@),
                None => as_text(*self) is None,
            },
    {
        match self {
            JsonValue::Str(s) => Some(s.as_str()),
            _ => None,
        }
    }
}

/// A string value as it is, or a whole number written in decimal.
pub fn json_string(v: &JsonValue) -> (r: Option<String>)
    ensures
        opt_text(r) == json_string_spec(*v),
{
    match v {
        JsonValue::Str(s) => Some(owned(s.as_str())),
        JsonValue::Number(JsonNumber::PosInt(n)) => Some(u64_to_string(*n)),
        JsonValue::Number(JsonNumber::NegInt(n)) => Some(i64_to_string(*n)),
        _ => None,
    }
}

/// The trimmed text of `value`, or nothing when it is blank.
pub fn nonempty(value: &str) -> (r: Option<String>)
    ensures
        opt_text(r) == nonempty_spec(value@),
{
    let v = crate::text::chars_of(value);
    let t = trim_vec(&v);
    if t.len() == 0 {
        None
    } else {
        Some(crate::text::string_of(t.as_slice()))
    }
}

/// The member `key` of `data`, as text, when it is not blank.
pub fn member_text_of(data: Option<&JsonValue>, key: &str) -> (r: Option<String>)
    ensures
        opt_text(r) == member_text(
            match data {
                Some(d) => Some(*d),
                None => None,
            },
            key@,
        ),
{
    match data {
        None => None,
        Some(d) => match d.get(key) {
            None => None,
            Some(x) => match json_string(x) {
                None => None,
                Some(s) => nonempty(s.as_str()),
            },
        },
    }
}

} // verus!
