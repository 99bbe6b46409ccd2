//! Reading single entries of what a document holds.

use vstd::prelude::*;
use yrs::types::xml::XmlIn;

use crate::calendar::Date;
use crate::rich_text::{AnyTree, XmlTree};
use crate::template::blob;
use crate::template::config;
use crate::template::items;
use crate::text;
use crate::ydoc::{self, YTree};

verus! {

/// What stands under `key` in a map, if anything does.
pub open spec fn entry(t: YTree, key: Seq<char>) -> Option<YTree> {
    match t {
        YTree::Dict(m) => if m.contains_key(key) {
            Some(m[key])
        } else {
            None
        },
        _ => None,
    }
}

/// Whether the text `s` stands under `key`.
pub open spec fn has_text(t: YTree, key: Seq<char>, s: Seq<char>) -> bool {
    entry(t, key) == Some(YTree::Value(AnyTree::Str(s)))
}

/// Whether the text stands under `key`, and nothing where there is none.
pub open spec fn has_opt(t: YTree, key: Seq<char>, o: Option<String>) -> bool {
    match o {
        Some(s) => has_text(t, key, s@),
        None => entry(t, key) is None,
    }
}

/// Whether `b` stands under `key`.
pub open spec fn has_bool(t: YTree, key: Seq<char>, b: bool) -> bool {
    entry(t, key) == Some(YTree::Value(AnyTree::Bool(b)))
}

/// Whether true stands under `key`, and nothing where `b` is false.
pub open spec fn has_flag(t: YTree, key: Seq<char>, b: bool) -> bool {
    if b {
        has_bool(t, key, true)
    } else {
        entry(t, key) is None
    }
}

/// Whether the number `n` stands under `key`, as a floating-point number.
pub open spec fn has_number(t: YTree, key: Seq<char>, n: int) -> bool {
    entry(t, key) == Some(YTree::Value(AnyTree::Number(ydoc::as_double(n))))
}

/// Whether null stands under `key`.
pub open spec fn has_null(t: YTree, key: Seq<char>) -> bool {
    entry(t, key) == Some(YTree::Value(AnyTree::Null))
}

/// Whether the fragment stands under `key`.
pub open spec fn has_fragment(t: YTree, key: Seq<char>, v: Seq<XmlTree>) -> bool {
    entry(t, key) == Some(YTree::Fragment(v))
}

/// Whether a list holds just these texts, in this order.
pub open spec fn are_texts(v: Seq<YTree>, s: Seq<Seq<char>>) -> bool {
    &&& v.len() == s.len()
    &&& forall|i: int| 0 <= i < v.len() ==> #[trigger] v[i] == YTree::Value(AnyTree::Str(s[i]))
}

/// Whether a list of just these texts stands under `key`.
pub open spec fn has_texts(t: YTree, key: Seq<char>, s: Seq<Seq<char>>) -> bool {
    match entry(t, key) {
        Some(YTree::List(v)) => are_texts(v, s),
        _ => false,
    }
}

/// Whether a map of just these texts stands under `key`.
pub open spec fn has_text_map(t: YTree, key: Seq<char>, s: Map<Seq<char>, String>) -> bool {
    match entry(t, key) {
        Some(YTree::Dict(m)) => {
            &&& forall|k: Seq<char>| #[trigger] m.contains_key(k) <==> s.contains_key(k)
            &&& forall|k: Seq<char>| #[trigger]
                s.contains_key(k) ==> m[k] == YTree::Value(AnyTree::Str(s[k]@))
        },
        _ => false,
    }
}

/// A list of strings holds the strings.
pub proof fn lemma_strs(s: Seq<Seq<char>>)
    ensures
        ydoc::ystrs(s) is List,
        are_texts(ydoc::ystrs(s)->List_0, s),
{
}

/// A map of strings holds the strings.
pub proof fn lemma_str_map(s: Map<Seq<char>, String>)
    ensures
        config::str_map_tree(s) is Dict,
        forall|k: Seq<char>| #[trigger]
            config::str_map_tree(s)->Dict_0.contains_key(k) <==> s.contains_key(k),
        forall|k: Seq<char>| #[trigger]
            s.contains_key(k) ==> config::str_map_tree(s)->Dict_0[k] == YTree::Value(
                AnyTree::Str(s[k]@),
            ),
{
}

/// The entries with `key` set, if there is a value.
#[verifier::opaque]
pub open spec fn put(m: Map<Seq<char>, YTree>, key: Seq<char>, o: Option<YTree>) -> Map<
    Seq<char>,
    YTree,
> {
    match o {
        Some(t) => m.insert(key, t),
        None => m,
    }
}

/// The entry under `k`, if there is one.
#[verifier::opaque]
pub open spec fn at(m: Map<Seq<char>, YTree>, k: Seq<char>) -> Option<YTree> {
    if m.contains_key(k) {
        Some(m[k])
    } else {
        None
    }
}

/// Setting an entry leaves the others as they are.
pub proof fn lemma_at()
    ensures
        forall|m: Map<Seq<char>, YTree>, key: Seq<char>, o: Option<YTree>, k: Seq<char>|
            #![trigger at(put(m, key, o), k)]
            k != key ==> at(put(m, key, o), k) == at(m, k),
        forall|m: Map<Seq<char>, YTree>, key: Seq<char>, o: Option<YTree>|
            #![trigger put(m, key, o)]
            at(m, key) is None ==> at(put(m, key, o), key) == o,
        forall|k: Seq<char>| #[trigger] at(Map::<Seq<char>, YTree>::empty(), k) is None,
{
    reveal(put);
    reveal(at);
}

/// What is read of a map is its entries.
pub proof fn lemma_entry(m: Map<Seq<char>, YTree>)
    ensures
        forall|k: Seq<char>| #[trigger] entry(YTree::Dict(m), k) == at(m, k),
{
    reveal(at);
}

/// A text as an entry.
pub open spec fn str_entry(o: Option<Seq<char>>) -> Option<YTree> {
    match o {
        Some(s) => Some(ydoc::ystr(s)),
        None => None,
    }
}

/// True as an entry, if `on` holds.
pub open spec fn flag_entry(on: bool) -> Option<YTree> {
    if on {
        Some(ydoc::ybool(true))
    } else {
        None
    }
}

/// Texts as an entry, if there are any.
pub open spec fn strs_entry(v: Seq<String>) -> Option<YTree> {
    if v.len() > 0 {
        Some(ydoc::ystrs(text::texts(v)))
    } else {
        None
    }
}

/// The rich text of a blob as an entry, if there is one.
pub open spec fn blob_entry(b: Option<Seq<char>>, shown: Map<Seq<char>, Vec<XmlIn>>) -> Option<YTree> {
    match b {
        Some(b) => Some(YTree::Fragment(blob::blob_nodes(b, shown))),
        None => None,
    }
}

/// A date that lies an offset after the start as an entry, if there is one.
pub open spec fn date_entry(start: Date, offset: Option<i64>) -> Option<YTree> {
    match offset {
        Some(n) => str_entry(start.plus_days(n as int)),
        None => None,
    }
}

/// The ways in which entries are set.
pub proof fn lemma_sets()
    ensures
        forall|m: Map<Seq<char>, YTree>, key: Seq<char>, t: YTree|
            #[trigger] m.insert(key, t) == put(m, key, Some(t)),
        forall|m: Map<Seq<char>, YTree>, key: Seq<char>, o: Option<Seq<char>>|
            #[trigger] config::with_opt(m, key, o) == put(m, key, str_entry(o)),
        forall|m: Map<Seq<char>, YTree>, key: Seq<char>, on: bool|
            #[trigger] config::with_flag(m, key, on) == put(m, key, flag_entry(on)),
        forall|m: Map<Seq<char>, YTree>, key: Seq<char>, v: Seq<String>|
            #[trigger] items::with_strs(m, key, v) == put(m, key, strs_entry(v)),
        forall|
            m: Map<Seq<char>, YTree>,
            key: Seq<char>,
            b: Option<Seq<char>>,
            shown: Map<Seq<char>, Vec<XmlIn>>,
        | #[trigger]
            items::with_blob(m, key, b, shown) == put(m, key, blob_entry(b, shown)),
        forall|m: Map<Seq<char>, YTree>, key: Seq<char>, start: Date, offset: Option<i64>|
            #[trigger] items::with_date(m, key, start, offset) == put(
                m,
                key,
                date_entry(start, offset),
            ),
{
    reveal(put);
}

} // verus!
