//! A JSON value held as plain data, with the lookups the log logic needs.

use vstd::prelude::*;
use crate::text::{contains_seq, lower_of, lowered_contains};

verus! {

broadcast use vstd::std_specs::vec::group_vec_axioms;

/// A JSON number: its text as written, and its value where that is an
/// unsigned 64-bit integer.
#[derive(Clone, Debug)]
pub struct JsonNumber {
    pub text: String,
    pub unsigned: Option<u64>,
}

/// A JSON value. Object members keep their order, each key once.
#[derive(Debug)]
pub enum Json {
    Null,
    Bool(bool),
    Number(JsonNumber),
    Str(String),
    Array(Vec<Json>),
    Object(Vec<(String, Json)>),
}

/// Two strings hold the same characters.
pub fn str_eq(a: &str, b: &str) -> (r: bool)
    ensures
        r == (a@ == b@),
{
    let x = crate::text::chars_of(a);
    let y = crate::text::chars_of(b);
    if x.len() != y.len() {
        return false;
    }
    let mut i: usize = 0;
    while i < x.len()
        invariant
            x@ == a@,
            y@ == b@,
            x@.len() == y@.len(),
            i <= x@.len(),
            forall|j: int| 0 <= j < i ==> x@[j] == y@[j],
        decreases x@.len() - i,
    {
        if x[i] != y[i] {
            return false;
        }
        i = i + 1;
    }
    assert(x@ =~= y@);
    true
}

/// The index of the first member of `members` whose key is `key`.
pub open spec fn key_index(members: Seq<(String, Json)>, key: Seq<char>) -> Option<int>
    decreases members.len(),
{
    if members.len() == 0 {
        None
    } else if members.last().0@ == key {
        match key_index(members.drop_last(), key) {
            Some(i) => Some(i),
            None => Some(members.len() - 1),
        }
    } else {
        key_index(members.drop_last(), key)
    }
}

proof fn lemma_key_index_push(members: Seq<(String, Json)>, key: Seq<char>, n: int)
    requires
        0 <= n < members.len(),
        key_index(members.subrange(0, n), key) is None,
    ensures
        key_index(members.subrange(0, n + 1), key) == if members[n].0@ == key {
            Some(n)
        } else {
            None::<int>
        },
{
    assert(members.subrange(0, n + 1).drop_last() =~= members.subrange(0, n));
}

impl Json {
    /// The member named `key`, where this is an object that has one.
    pub open spec fn field(self, key: Seq<char>) -> Option<Json> {
        match self {
            Json::Object(members) => match key_index(members@, key) {
                Some(i) => Some(members@[i].1),
                None => None,
            },
            _ => None,
        }
    }

    /// The text, where this is a string.
    pub open spec fn text(self) -> Option<Seq<char>> {
        match self {
            Json::Str(s) => Some(s@),
            _ => None,
        }
    }

    /// The value, where this is a number that fits an unsigned 64-bit integer.
    pub open spec fn unsigned(self) -> Option<u64> {
        match self {
            Json::Number(n) => n.unsigned,
            _ => None,
        }
    }

    /// The member named `key`, as text.
    pub open spec fn field_text(self, key: Seq<char>) -> Option<Seq<char>> {
        match self.field(key) {
            Some(v) => v.text(),
            None => None,
        }
    }

    /// The member named `key`, as an unsigned integer.
    pub open spec fn field_unsigned(self, key: Seq<char>) -> Option<u64> {
        match self.field(key) {
            Some(v) => v.unsigned(),
            None => None,
        }
    }

    /// Looks up the member named `key` of an object.
    pub fn get(&self, key: &str) -> (r: Option<&Json>)
        ensures
            match r {
                Some(v) => self.field(key@) == Some(*v),
                None => self.field(key@) is None,
            },
    {
        match self {
            Json::Object(members) => {
                let mut i: usize = 0;
                while i < members.len()
                    invariant
                        *self == Json::Object(*members),
                        i <= members@.len(),
                        key_index(members@.subrange(0, i as int), key@) is None,
                    decreases members@.len() - i,
                {
                    proof {
                        lemma_key_index_push(members@, key@, i as int);
                    }
                    if str_eq(members[i].0.as_str(), key) {
                        assert(key_index(members@.subrange(0, i + 1), key@) == Some(i as int));
                        proof {
                            lemma_key_index_extend(members@, key@, i + 1, i as int);
                        }
                        assert(key_index(members@, key@) == Some(i as int));
                        assert(self.field(key@) == Some(members@[i as int].1));
                        return Some(&members[i].1);
                    }
                    i = i + 1;
                }
                assert(members@.subrange(0, members@.len() as int) =~= members@);
                None
            },
            _ => None,
        }
    }

    /// The text of a string value.
    pub fn as_str(&self) -> (r: Option<&String>)
        ensures
            match r {
                Some(s) => self.text() == Some(s@),
                None => self.text() is None,
            },
    {
        match self {
            Json::Str(s) => Some(s),
            _ => None,
        }
    }

    /// The value of a number that fits an unsigned 64-bit integer.
    pub fn as_u64(&self) -> (r: Option<u64>)
        ensures
            r == self.unsigned(),
    {
        match self {
            Json::Number(n) => n.unsigned,
            _ => None,
        }
    }

    /// The value of a boolean.
    pub fn as_bool(&self) -> (r: Option<bool>)
        ensures
            r == match self {
                Json::Bool(b) => Some(*b),
                _ => None::<bool>,
            },
    {
        match self {
            Json::Bool(b) => Some(*b),
            _ => None,
        }
    }

    /// The member named `key`, as text.
    pub fn get_str(&self, key: &str) -> (r: Option<&String>)
        ensures
            match r {
                Some(s) => self.field_text(key@) == Some(s@),
                None => self.field_text(key@) is None,
            },
    {
        match self.get(key) {
            Some(v) => v.as_str(),
            None => None,
        }
    }

    /// The member named `key`, as an unsigned integer.
    pub fn get_u64(&self, key: &str) -> (r: Option<u64>)
        ensures
            r == self.field_unsigned(key@),
    {
        match self.get(key) {
            Some(v) => v.as_u64(),
            None => None,
        }
    }
}

proof fn lemma_key_index_extend(members: Seq<(String, Json)>, key: Seq<char>, n: int, i: int)
    requires
        0 <= n <= members.len(),
        key_index(members.subrange(0, n), key) == Some(i),
    ensures
        key_index(members, key) == Some(i),
    decreases members.len() - n,
{
    if n < members.len() {
        assert(members.subrange(0, n + 1).drop_last() =~= members.subrange(0, n));
        lemma_key_index_extend(members, key, n + 1, i);
    } else {
        assert(members.subrange(0, n) =~= members);
    }
}

/// A string somewhere in `v`, lowercased, contains `q`.
pub open spec fn value_matches(v: Json, q: Seq<char>) -> bool
    decreases v,
{
    match v {
        Json::Str(s) => contains_seq(lower_of(s@), q),
        Json::Array(items) => exists|i: int| 0 <= i < items@.len() && value_matches(#[trigger] items@[i], q),
        Json::Object(members) => exists|i: int| 0 <= i < members@.len() && value_matches(#[trigger] members@[i].1, q),
        _ => false,
    }
}

/// Whether some string inside `v`, lowercased, contains `query_lower`;
/// numbers, booleans and null never match.
pub fn search_in_value(v: &Json, query_lower: &str) -> (r: bool)
    ensures
        r == value_matches(*v, query_lower@),
    decreases v,
{
    match v {
        Json::Str(s) => lowered_contains(s.as_str(), query_lower),
        Json::Array(items) => {
            let mut i: usize = 0;
            while i < items.len()
                invariant
                    *v == Json::Array(*items),
                    i <= items@.len(),
                    forall|j: int| 0 <= j < i ==> !value_matches(#[trigger] items@[j], query_lower@),
                decreases items@.len() - i,
            {
                proof {
                    assert(decreases_to!(*v => v->Array_0));
                    assert(decreases_to!(v->Array_0 => items@));
                    assert(decreases_to!(items@ => items@[i as int]));
                }
                if search_in_value(&items[i], query_lower) {
                    assert(value_matches(items@[i as int], query_lower@));
                    assert(value_matches(*v, query_lower@));
                    return true;
                }
                i = i + 1;
            }
            false
        },
        Json::Object(members) => {
            let mut i: usize = 0;
            while i < members.len()
                invariant
                    *v == Json::Object(*members),
                    i <= members@.len(),
                    forall|j: int| 0 <= j < i ==> !value_matches(#[trigger] members@[j].1, query_lower@),
                decreases members@.len() - i,
            {
                proof {
                    assert(decreases_to!(*v => v->Object_0));
                    assert(decreases_to!(v->Object_0 => members@));
                    assert(decreases_to!(members@ => members@[i as int]));
                    assert(decreases_to!(members@[i as int] => members@[i as int].1));
                }
                if search_in_value(&members[i].1, query_lower) {
                    assert(value_matches(members@[i as int].1, query_lower@));
                    return true;
                }
                i = i + 1;
            }
            false
        },
        _ => false,
    }
}

} // verus!
