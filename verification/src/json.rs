//! JSON values.

use vstd::prelude::*;

use crate::text;

verus! {

/// A JSON value. A whole number is kept as such; another number as its text.
#[derive(Debug, PartialEq, Eq)]
pub enum Json {
    Null,
    Bool(bool),
    Unsigned(u64),
    Negative(i64),
    Decimal(String),
    Str(String),
    Array(Vec<Json>),
    Object(Vec<(String, Json)>),
}

/// The first position from `i` on at which the key `key` stands.
pub open spec fn key_from(v: Seq<(String, Json)>, key: Seq<char>, i: int) -> Option<int>
    decreases v.len() - i,
{
    if i < 0 || i >= v.len() {
        None
    } else if v[i].0@ == key {
        Some(i)
    } else {
        key_from(v, key, i + 1)
    }
}

pub proof fn lemma_key_from(v: Seq<(String, Json)>, key: Seq<char>, i: int)
    requires
        0 <= i,
    ensures
        key_from(v, key, i) matches Some(k) ==> i <= k < v.len() && v[k].0@ == key,
    decreases v.len() - i,
{
    if i < v.len() && v[i].0@ != key {
        lemma_key_from(v, key, i + 1);
    }
}

/// The value under `key`, where `n` is an object that has one.
pub open spec fn get(n: Json, key: Seq<char>) -> Option<Json> {
    match n {
        Json::Object(v) => match key_from(v@, key, 0) {
            Some(i) => Some(v@[i].1),
            None => None,
        },
        _ => None,
    }
}

/// The text, where there is a string.
pub open spec fn as_text(o: Option<Json>) -> Option<Seq<char>> {
    match o {
        Some(Json::Str(s)) => Some(s@),
        _ => None,
    }
}

/// The items, where there is an array.
pub open spec fn as_items(o: Option<Json>) -> Option<Seq<Json>> {
    match o {
        Some(Json::Array(v)) => Some(v@),
        _ => None,
    }
}

/// The value under a key is that of the first entry with the key; there is none where no
/// entry has it.
pub proof fn lemma_get(v: Vec<(String, Json)>, key: Seq<char>, k: int)
    requires
        0 <= k <= v@.len(),
        forall|i: int| 0 <= i < k ==> (#[trigger] v@[i]).0@ != key,
    ensures
        k < v@.len() && v@[k].0@ == key ==> get(Json::Object(v), key) == Some(v@[k].1),
        k == v@.len() ==> get(Json::Object(v), key) is None,
{
    lemma_key_at(v@, key, 0, k);
}

proof fn lemma_key_at(v: Seq<(String, Json)>, key: Seq<char>, i: int, k: int)
    requires
        0 <= i <= k <= v.len(),
        forall|j: int| i <= j < k ==> (#[trigger] v[j]).0@ != key,
    ensures
        k < v.len() && v[k].0@ == key ==> key_from(v, key, i) == Some(k),
        k == v.len() ==> key_from(v, key, i) is None,
    decreases k - i,
{
    if i < k {
        assert(v[i].0@ != key);
        lemma_key_at(v, key, i + 1, k);
    }
}

/// The string under `key`, or an empty one.
pub open spec fn text_under(n: Json, key: Seq<char>) -> Seq<char> {
    match as_text(get(n, key)) {
        Some(s) => s,
        None => seq![],
    }
}

/// The string under `inner` in the object under `outer`.
pub open spec fn nested_text(n: Json, outer: Seq<char>, inner: Seq<char>) -> Option<Seq<char>> {
    match get(n, outer) {
        Some(a) => as_text(get(a, inner)),
        None => None,
    }
}

/// An item of an array under a key is smaller than the object.
pub proof fn lemma_items_smaller(n: Json, key: Seq<char>)
    requires
        as_items(get(n, key)) is Some,
    ensures
        decreases_to!(n => as_items(get(n, key))->0),
{
    let v = n->Object_0;
    lemma_key_from(v@, key, 0);
    let k = key_from(v@, key, 0)->0;
    assert(decreases_to!(n => n->Object_0));
    assert(decreases_to!(v => v@));
    assert(decreases_to!(v@ => v@[k]));
    assert(decreases_to!(v@[k] => v@[k].1));
    let a = v@[k].1;
    assert(decreases_to!(a => a->Array_0));
    assert(decreases_to!(a->Array_0 => a->Array_0@));
}

impl Json {
    pub fn get(&self, key: &str) -> (r: Option<&Json>)
        ensures
            match r {
                Some(v) => get(*self, key@) == Some(*v),
                None => get(*self, key@) is None,
            },
    {
        match self {
            Json::Object(v) => {
                let mut i: usize = 0;
                while i < v.len()
                    invariant
                        i <= v@.len(),
                        *self == Json::Object(*v),
                        key_from(v@, key@, 0) == key_from(v@, key@, i as int),
                    decreases v@.len() - i,
                {
                    if text::str_eq(v[i].0.as_str(), key) {
                        return Some(&v[i].1);
                    }
                    i = i + 1;
                }
                None
            },
            _ => None,
        }
    }

    pub fn as_str(&self) -> (r: Option<&str>)
        ensures
            match r {
                Some(s) => as_text(Some(*self)) == Some(s@),
                None => as_text(Some(*self)) is None,
            },
    {
        match self {
            Json::Str(s) => Some(s.as_str()),
            _ => None,
        }
    }

    pub fn as_array(&self) -> (r: Option<&Vec<Json>>)
        ensures
            match r {
                Some(v) => *self == Json::Array(*v),
                None => as_items(Some(*self)) is None,
            },
    {
        match self {
            Json::Array(v) => Some(v),
            _ => None,
        }
    }

    /// The string under `key`, or an empty one.
    pub fn str_under(&self, key: &str) -> (r: &str)
        ensures
            r@ == text_under(*self, key@),
    {
        if let Some(v) = self.get(key) {
            if let Some(s) = v.as_str() {
                return s;
            }
        }
        proof {
            reveal_strlit("");
            assert(""@ =~= seq![]);
        }
        ""
    }

    /// The string under `inner` in the object under `outer`.
    pub fn nested_str(&self, outer: &str, inner: &str) -> (r: Option<&str>)
        ensures
            match r {
                Some(s) => nested_text(*self, outer@, inner@) == Some(s@),
                None => nested_text(*self, outer@, inner@) is None,
            },
    {
        match self.get(outer) {
            Some(a) => match a.get(inner) {
                Some(v) => v.as_str(),
                None => None,
            },
            None => None,
        }
    }
}

} // verus!
