//! Tool arguments as plain JSON values, with the lookups the tools make on
//! them (`get`, `as_str`, `as_u64`, `as_object`, `as_array`).

use vstd::prelude::*;
use crate::text::{first_at, lemma_first_at, lemma_first_at_extend, str_eq};

verus! {

/// A JSON number: its value when it is a non-negative integer that fits in
/// 64 bits, and its decimal text.
pub struct JsonNumber {
    pub unsigned: Option<u64>,
    pub text: String,
}

/// A JSON value. An object keeps its members in key order, each key once.
pub enum Json {
    Null,
    Bool(bool),
    Number(JsonNumber),
    Str(String),
    Array(Vec<Json>),
    Object(Vec<(String, Json)>),
}

/// Index of member `key` in an object's members.
pub open spec fn member_index(members: Seq<(String, Json)>, key: Seq<char>) -> Option<int> {
    first_at(members.len(), |k: int| members[k].0@ == key)
}

/// The member `key` of an object; nothing for other values.
pub open spec fn json_get(v: Json, key: Seq<char>) -> Option<Json> {
    match v {
        Json::Object(members) => match member_index(members@, key) {
            Some(k) => Some(members@[k].1),
            None => None,
        },
        _ => None,
    }
}

/// The member `key`, or null when absent (what indexing a value gives).
pub open spec fn json_index(v: Json, key: Seq<char>) -> Json {
    match json_get(v, key) {
        Some(x) => x,
        None => Json::Null,
    }
}

/// The text of a string value.
pub open spec fn json_str(v: Json) -> Option<Seq<char>> {
    match v {
        Json::Str(s) => Some(s@),
        _ => None,
    }
}

/// The value of a number that is a non-negative 64-bit integer.
pub open spec fn json_u64(v: Json) -> Option<u64> {
    match v {
        Json::Number(n) => n.unsigned,
        _ => None,
    }
}

/// `json_str` of an optional value.
pub open spec fn opt_str(v: Option<Json>) -> Option<Seq<char>> {
    match v {
        Some(x) => json_str(x),
        None => None,
    }
}

/// `json_u64` of an optional value.
pub open spec fn opt_u64(v: Option<Json>) -> Option<u64> {
    match v {
        Some(x) => json_u64(x),
        None => None,
    }
}

/// The member `key` of `v`, if `v` is an object that has it.
pub fn get<'a>(v: &'a Json, key: &str) -> (r: Option<&'a Json>)
    ensures
        match json_get(*v, key@) {
            Some(x) => r == Some(&x),
            None => r is None,
        },
{
    match v {
        Json::Object(members) => {
            let ghost p = |k: int| members@[k].0@ == key@;
            let mut k: usize = 0;
            while k < members.len()
                invariant
                    k <= members.len(),
                    *v == Json::Object(*members),
                    p == (|k: int| members@[k].0@ == key@),
                    first_at(k as nat, p) is None,
                decreases members.len() - k,
            {
                if str_eq(members[k].0.as_str(), key) {
                    proof {
                        assert(p(k as int));
                        lemma_first_at_extend((k + 1) as nat, members.len() as nat, p);
                    }
                    return Some(&members[k].1);
                }
                k += 1;
            }
            None
        },
        _ => None,
    }
}

/// The text of `v` if it is a string.
pub fn as_str(v: Option<&Json>) -> (r: Option<&str>)
    ensures
        match opt_str(match v { Some(x) => Some(*x), None => None }) {
            Some(s) => r matches Some(t) && t@ == s,
            None => r is None,
        },
{
    match v {
        Some(Json::Str(s)) => Some(s.as_str()),
        _ => None,
    }
}

/// The value of `v` if it is a non-negative 64-bit integer.
pub fn as_u64(v: Option<&Json>) -> (r: Option<u64>)
    ensures
        r == opt_u64(match v { Some(x) => Some(*x), None => None }),
{
    match v {
        Some(Json::Number(n)) => n.unsigned,
        _ => None,
    }
}

/// The member `key` of `v`, moved out of it.
pub fn take_member(v: Json, key: &str) -> (r: Option<Json>)
    ensures
        r == json_get(v, key@),
{
    match v {
        Json::Object(members) => {
            let ghost p = |k: int| members@[k].0@ == key@;
            let mut members = members;
            let ghost all = members@;
            let mut k: usize = 0;
            while k < members.len()
                invariant
                    k <= members.len(),
                    members@ == all,
                    v == Json::Object(members),
                    p == (|k: int| all[k].0@ == key@),
                    first_at(k as nat, p) is None,
                decreases members.len() - k,
            {
                if str_eq(members[k].0.as_str(), key) {
                    proof {
                        assert(p(k as int));
                        lemma_first_at_extend((k + 1) as nat, members.len() as nat, p);
                    }
                    let (_, x) = members.remove(k);
                    return Some(x);
                }
                k += 1;
            }
            None
        },
        _ => None,
    }
}

} // verus!
