//! A JSON value as plain data.
//!
//! The tool arguments and the published input schemas are JSON documents; the checks that read
//! them (the size quota, the argument hints) walk this tree. An object keeps its members in the
//! order they are walked in, each key once.
use vstd::prelude::*;

use crate::text::{chars_eq, chars_of};

verus! {

/// A JSON value.
#[derive(Debug)]
pub enum JsonValue {
    Null,
    Bool(bool),
    /// A number, as its JSON text.
    Number(String),
    Str(String),
    Array(Vec<JsonValue>),
    /// The members of an object, in order.
    Object(Vec<(String, JsonValue)>),
}

/// The position of the first member of `members` whose key is `key`, if any.
pub open spec fn member_index(members: Seq<(String, JsonValue)>, key: Seq<char>) -> Option<int>
    decreases members.len(),
{
    if members.len() == 0 {
        None
    } else if members[0].0@ == key {
        Some(0)
    } else {
        match member_index(members.skip(1), key) {
            Some(i) => Some(i + 1),
            None => None,
        }
    }
}

/// The member `key` of `v`, where `v` is an object that has one.
pub open spec fn member(v: JsonValue, key: Seq<char>) -> Option<JsonValue> {
    match v {
        JsonValue::Object(m) => match member_index(m@, key) {
            Some(i) => Some(m@[i].1),
            None => None,
        },
        _ => None,
    }
}

/// The string that `v` is, if it is one.
pub open spec fn as_str(v: Option<JsonValue>) -> Option<Seq<char>> {
    match v {
        Some(JsonValue::Str(s)) => Some(s@),
        _ => None,
    }
}

proof fn lemma_member_index(members: Seq<(String, JsonValue)>, key: Seq<char>)
    ensures
        match member_index(members, key) {
            Some(i) => 0 <= i < members.len() && members[i].0@ == key && forall|j: int|
                0 <= j < i ==> #[trigger] members[j].0@ != key,
            None => forall|j: int| 0 <= j < members.len() ==> #[trigger] members[j].0@ != key,
        },
    decreases members.len(),
{
    if members.len() > 0 {
        lemma_member_index(members.skip(1), key);
        if members[0].0@ != key {
            assert forall|j: int| 1 <= j < members.len() implies members[j].0@ == members.skip(
                1,
            )[j - 1].0@ by {}
        }
    }
}

/// The position of member `key` in `members`.
pub fn find_member(members: &Vec<(String, JsonValue)>, key: &str) -> (r: Option<usize>)
    ensures
        match r {
            Some(i) => i < members@.len() && member_index(members@, key@) == Some(i as int),
            None => member_index(members@, key@) is None,
        },
{
    proof {
        lemma_member_index(members@, key@);
    }
    let k = chars_of(key);
    let mut i: usize = 0;
    while i < members.len()
        invariant
            0 <= i <= members@.len(),
            k@ == key@,
            forall|j: int| 0 <= j < i ==> #[trigger] members@[j].0@ != key@,
        decreases members@.len() - i,
    {
        let c = chars_of(members[i].0.as_str());
        if chars_eq(&c, &k) {
            proof {
                lemma_member_index(members@, key@);
            }
            return Some(i);
        }
        i = i + 1;
    }
    None
}

/// The member `key` of `v`, where `v` is an object that has one.
pub fn get<'a>(v: &'a JsonValue, key: &str) -> (r: Option<&'a JsonValue>)
    ensures
        match r {
            Some(x) => member(*v, key@) == Some(*x),
            None => member(*v, key@) is None,
        },
{
    match v {
        JsonValue::Object(m) => match find_member(m, key) {
            Some(i) => Some(&m[i].1),
            None => None,
        },
        _ => None,
    }
}

/// The string `v` is, if it is one.
pub fn get_str<'a>(v: Option<&'a JsonValue>) -> (r: Option<&'a String>)
    ensures
        match r {
            Some(s) => as_str(
                match v {
                    Some(x) => Some(*x),
                    None => None,
                },
            ) == Some(s@),
            None => as_str(
                match v {
                    Some(x) => Some(*x),
                    None => None,
                },
            ) is None,
        },
{
    match v {
        Some(JsonValue::Str(s)) => Some(s),
        _ => None,
    }
}

} // verus!
