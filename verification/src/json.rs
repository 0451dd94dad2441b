//! The JSON values that tool-call arguments are made of, and their
//! mathematical model.

use vstd::prelude::*;

verus! {

broadcast use vstd::std_specs::vec::group_vec_axioms;

/// A JSON number, kept exactly as received: a non-negative integer, a
/// negative integer, or a binary64 value held by its bit pattern.
#[derive(Debug, Clone, Copy, PartialEq, Eq)]
pub enum JsonNumber {
    PosInt(u64),
    NegInt(i64),
    Float(u64),
}

/// A JSON value. Object members keep the order in which they were inserted;
/// a key is looked up by its first member (values parsed from JSON text hold
/// each key once).
#[derive(Debug, PartialEq, Eq)]
pub enum JsonValue {
    Null,
    Bool(bool),
    Number(JsonNumber),
    String(String),
    Array(Vec<JsonValue>),
    Object(Vec<(String, JsonValue)>),
}

/// The mathematical model of a [`JsonValue`]: strings are sequences of
/// characters, objects are sequences of (key, value) members.
pub enum Json {
    Null,
    Bool(bool),
    Number(JsonNumber),
    String(Seq<char>),
    Array(Seq<Json>),
    Object(Seq<(Seq<char>, Json)>),
}

/// The model of a JSON value.
pub open spec fn json_view(v: JsonValue) -> Json
    decreases v,
{
    match v {
        JsonValue::Null => Json::Null,
        JsonValue::Bool(b) => Json::Bool(b),
        JsonValue::Number(n) => Json::Number(n),
        JsonValue::String(s) => Json::String(s@),
        JsonValue::Array(items) => Json::Array(items_view(items@)),
        JsonValue::Object(members) => Json::Object(members_view(members@)),
    }
}

/// The models of the items of an array.
pub open spec fn items_view(items: Seq<JsonValue>) -> Seq<Json>
    decreases items,
{
    Seq::new(
        items.len(),
        |i: int|
            if 0 <= i < items.len() {
                json_view(items[i])
            } else {
                Json::Null
            },
    )
}

/// The models of the members of an object.
pub open spec fn members_view(members: Seq<(String, JsonValue)>) -> Seq<(Seq<char>, Json)>
    decreases members,
{
    Seq::new(
        members.len(),
        |i: int|
            if 0 <= i < members.len() {
                (members[i].0@, json_view(members[i].1))
            } else {
                (Seq::empty(), Json::Null)
            },
    )
}

impl View for JsonValue {
    type V = Json;

    open spec fn view(&self) -> Json {
        json_view(*self)
    }
}

/// The index of the first member of `members` whose key is `key`, if any.
pub open spec fn find_key(members: Seq<(Seq<char>, Json)>, key: Seq<char>) -> Option<int>
    decreases members.len(),
{
    if members.len() == 0 {
        None
    } else {
        match find_key(members.drop_last(), key) {
            Some(i) => Some(i),
            None => if members.last().0 == key {
                Some(members.len() - 1)
            } else {
                None
            },
        }
    }
}

/// The value of the first member of `members` whose key is `key`, if any.
pub open spec fn lookup(members: Seq<(Seq<char>, Json)>, key: Seq<char>) -> Option<Json> {
    match find_key(members, key) {
        Some(i) => Some(members[i].1),
        None => None,
    }
}

/// `find_key` returns the first index holding `key`, or `None` when no
/// member has that key.
pub proof fn lemma_find_key(members: Seq<(Seq<char>, Json)>, key: Seq<char>)
    ensures
        match find_key(members, key) {
            Some(i) => {
                &&& 0 <= i < members.len()
                &&& members[i].0 == key
                &&& forall|j: int| 0 <= j < i ==> members[j].0 != key
            },
            None => forall|j: int| 0 <= j < members.len() ==> members[j].0 != key,
        },
    decreases members.len(),
{
    if members.len() > 0 {
        let prefix = members.drop_last();
        lemma_find_key(prefix, key);
        assert forall|j: int| 0 <= j < prefix.len() implies prefix[j] == members[j] by {}
    }
}

/// Keys are compared by their characters.
fn same_key(a: &String, b: &String) -> (r: bool)
    ensures
        r == (a@ == b@),
{
    *a == *b
}

/// The index of the first member of `members` whose key is `key`.
pub fn find_member(members: &Vec<(String, JsonValue)>, key: &String) -> (r: Option<usize>)
    ensures
        match r {
            Some(i) => find_key(members_view(members@), key@) == Some(i as int),
            None => find_key(members_view(members@), key@) is None,
        },
{
    let ghost mv = members_view(members@);
    let mut i: usize = 0;
    while i < members.len()
        invariant
            i <= members.len(),
            mv == members_view(members@),
            mv.len() == members.len(),
            forall|j: int| 0 <= j < i ==> mv[j].0 != key@,
        decreases members.len() - i,
    {
        if same_key(&members[i].0, key) {
            proof {
                assert(mv[i as int].0 == key@);
                lemma_find_key(mv, key@);
            }
            return Some(i);
        }
        i = i + 1;
    }
    proof {
        lemma_find_key(mv, key@);
    }
    None
}

impl JsonValue {
    /// A copy of this value with the same model.
    pub fn deep_copy(&self) -> (r: JsonValue)
        ensures
            r@ == self@,
        decreases *self,
    {
        match self {
            JsonValue::Null => JsonValue::Null,
            JsonValue::Bool(b) => JsonValue::Bool(*b),
            JsonValue::Number(n) => JsonValue::Number(*n),
            JsonValue::String(s) => JsonValue::String(s.clone()),
            JsonValue::Array(items) => JsonValue::Array(copy_items(items)),
            JsonValue::Object(members) => JsonValue::Object(copy_members(members)),
        }
    }

    /// The value of the first member named `key`, when `self` is an object
    /// that has one.
    pub fn get(&self, key: &str) -> (r: Option<&JsonValue>)
        ensures
            match self@ {
                Json::Object(members) => match r {
                    Some(v) => lookup(members, key@) == Some(v@),
                    None => lookup(members, key@) is None,
                },
                _ => r is None,
            },
    {
        match self {
            JsonValue::Object(members) => {
                let k = String::from_str(key);
                let found = find_member(members, &k);
                proof {
                    lemma_find_key(members_view(members@), key@);
                }
                match found {
                    Some(i) => {
                        assert(members_view(members@)[i as int].1 == json_view(members@[i as int].1));
                        Some(&members[i].1)
                    },
                    None => None,
                }
            },
            _ => None,
        }
    }

    /// The string held by `self`, when it is a string.
    pub fn as_str(&self) -> (r: Option<&str>)
        ensures
            match self@ {
                Json::String(s) => r matches Some(t) && t@ == s,
                _ => r is None,
            },
    {
        match self {
            JsonValue::String(s) => Some(s.as_str()),
            _ => None,
        }
    }
}

impl Clone for JsonValue {
    fn clone(&self) -> (r: Self)
        ensures
            r@ == self@,
    {
        self.deep_copy()
    }
}

fn copy_items(items: &Vec<JsonValue>) -> (r: Vec<JsonValue>)
    ensures
        items_view(r@) == items_view(items@),
    decreases *items,
{
    let mut out: Vec<JsonValue> = Vec::new();
    let mut i: usize = 0;
    while i < items.len()
        invariant
            i <= items.len(),
            out.len() == i,
            forall|j: int| 0 <= j < i ==> json_view(#[trigger] out@[j]) == json_view(items@[j]),
        decreases items.len() - i,
    {
        let c = items[i].deep_copy();
        out.push(c);
        i = i + 1;
    }
    assert(items_view(out@) =~= items_view(items@));
    out
}

pub(crate) fn copy_members(members: &Vec<(String, JsonValue)>) -> (r: Vec<(String, JsonValue)>)
    ensures
        members_view(r@) == members_view(members@),
    decreases *members,
{
    let mut out: Vec<(String, JsonValue)> = Vec::new();
    let mut i: usize = 0;
    while i < members.len()
        invariant
            i <= members.len(),
            out.len() == i,
            forall|j: int|
                0 <= j < i ==> (#[trigger] out@[j]).0@ == members@[j].0@ && json_view(out@[j].1)
                    == json_view(members@[j].1),
        decreases members.len() - i,
    {
        proof {
            assert(decreases_to!(members@[i as int] => members@[i as int].1));
        }
        let k = members[i].0.clone();
        let v = members[i].1.deep_copy();
        out.push((k, v));
        i = i + 1;
    }
    assert(members_view(out@) =~= members_view(members@));
    out
}

} // verus!
