//! A map from strings, kept as a list of entries in the order in which their
//! keys came.

use vstd::prelude::*;

use crate::text;

verus! {

#[derive(Debug)]
pub struct StrMap<V> {
    entries: Vec<(String, V)>,
}

/// No key occurs twice.
pub open spec fn unique_keys<V>(v: Seq<(String, V)>) -> bool {
    forall|i: int, j: int|
        0 <= i < j < v.len() ==> #[trigger] v[i].0@ != #[trigger] v[j].0@
}

/// Where the key `k` stands.
pub open spec fn key_at<V>(v: Seq<(String, V)>, k: Seq<char>, i: int) -> bool {
    0 <= i < v.len() && v[i].0@ == k
}

pub open spec fn has_key<V>(v: Seq<(String, V)>, k: Seq<char>) -> bool {
    exists|i: int| key_at(v, k, i)
}

/// The map that a list of entries with unique keys stands for.
pub open spec fn map_of<V>(v: Seq<(String, V)>) -> Map<Seq<char>, V> {
    Map::new(|k: Seq<char>| has_key(v, k), |k: Seq<char>| v[choose|i: int| key_at(v, k, i)].1)
}

impl<V> View for StrMap<V> {
    type V = Map<Seq<char>, V>;

    closed spec fn view(&self) -> Map<Seq<char>, V> {
        map_of(self.entries@)
    }
}

impl<V> StrMap<V> {
    #[verifier::type_invariant]
    spec fn wf(&self) -> bool {
        unique_keys(self.entries@)
    }

    /// The entries in order.
    pub closed spec fn pairs(&self) -> Seq<(String, V)> {
        self.entries@
    }

    /// An entry of the list is an entry of the map, and every key stands in the
    /// list once.
    pub fn entries(&self) -> (r: &Vec<(String, V)>)
        ensures
            r@ == self.pairs(),
            unique_keys(r@),
            self@ == map_of(r@),
            forall|i: int|
                0 <= i < r@.len() ==> self@.contains_key((#[trigger] r@[i]).0@) && self@[r@[i].0@]
                    == r@[i].1,
    {
        proof {
            use_type_invariant(self);
            assert forall|i: int| 0 <= i < self.entries@.len() implies self@.contains_key(
                (#[trigger] self.entries@[i]).0@,
            ) && self@[self.entries@[i].0@] == self.entries@[i].1 by {
                lemma_map_of(self.entries@, i);
            }
        }
        &self.entries
    }

    /// Gives the entries away.
    pub fn into_entries(self) -> (r: Vec<(String, V)>)
        ensures
            r@ == self.pairs(),
            unique_keys(r@),
            self@ == map_of(r@),
    {
        proof {
            use_type_invariant(&self);
        }
        self.entries
    }

    pub fn new() -> (r: Self)
        ensures
            r@ == Map::<Seq<char>, V>::empty(),
            r.pairs() == Seq::<(String, V)>::empty(),
    {
        let r = StrMap { entries: Vec::new() };
        assert(r@ =~= Map::<Seq<char>, V>::empty()) by {
            assert forall|k: Seq<char>| !has_key(r.entries@, k) by {}
        }
        r
    }

    pub fn len(&self) -> (r: usize)
        ensures
            r == self.pairs().len(),
    {
        self.entries.len()
    }

    fn position(&self, key: &str) -> (r: Option<usize>)
        ensures
            match r {
                Some(i) => key_at(self.entries@, key@, i as int),
                None => !has_key(self.entries@, key@),
            },
    {
        let mut i: usize = 0;
        while i < self.entries.len()
            invariant
                i <= self.entries@.len(),
                forall|k: int| 0 <= k < i ==> !key_at(self.entries@, key@, k),
            decreases self.entries@.len() - i,
        {
            if text::str_eq(self.entries[i].0.as_str(), key) {
                return Some(i);
            }
            i = i + 1;
        }
        None
    }

    pub fn get(&self, key: &str) -> (r: Option<&V>)
        ensures
            match r {
                Some(v) => self@.contains_key(key@) && *v == self@[key@],
                None => !self@.contains_key(key@),
            },
    {
        proof {
            use_type_invariant(self);
        }
        match self.position(key) {
            Some(i) => {
                proof {
                    lemma_map_of(self.entries@, i as int);
                }
                Some(&self.entries[i].1)
            },
            None => None,
        }
    }

    pub fn contains_key(&self, key: &str) -> (r: bool)
        ensures
            r == self@.contains_key(key@),
    {
        match self.position(key) {
            Some(i) => {
                assert(key_at(self.entries@, key@, i as int));
                true
            },
            None => false,
        }
    }

    /// Sets the value of `key`. A new key goes to the end.
    pub fn insert(&mut self, key: String, value: V)
        ensures
            final(self)@ == old(self)@.insert(key@, value),
            !old(self)@.contains_key(key@) ==> final(self).pairs() == old(self).pairs().push(
                (key, value),
            ),
            forall|i: int|
                0 <= i < final(self).pairs().len() ==> (#[trigger] final(self).pairs()[i]) == (
                    key,
                    value,
                ) || old(self).pairs().contains(final(self).pairs()[i]),
    {
        proof {
            use_type_invariant(&*self);
        }
        let mut entries: Vec<(String, V)> = Vec::new();
        let ghost before = self.entries@;
        match self.position(key.as_str()) {
            Some(i) => {
                std::mem::swap(&mut entries, &mut self.entries);
                entries.set(i, (key, value));
                assert(entries@[i as int].0@ == before[i as int].0@);
                proof {
                    lemma_set(before, i as int, key, value);
                }
            },
            None => {
                std::mem::swap(&mut entries, &mut self.entries);
                entries.push((key, value));
                proof {
                    lemma_push(before, key, value);
                }
            },
        }
        assert forall|i: int| 0 <= i < entries@.len() implies (#[trigger] entries@[i]) == (key, value)
            || before.contains(entries@[i]) by {
            if i < before.len() && entries@[i] != (key, value) {
                assert(entries@[i] == before[i]);
            }
        }
        self.entries = entries;
    }
}

/// An entry of a list with unique keys is an entry of the map.
pub proof fn lemma_map_of<V>(v: Seq<(String, V)>, i: int)
    requires
        unique_keys(v),
        0 <= i < v.len(),
    ensures
        map_of(v).contains_key(v[i].0@),
        map_of(v)[v[i].0@] == v[i].1,
{
    let k = v[i].0@;
    assert(key_at(v, k, i));
    let j = choose|j: int| key_at(v, k, j);
    assert(key_at(v, k, j));
    if i < j {
        assert(v[i].0@ != v[j].0@);
    } else if j < i {
        assert(v[j].0@ != v[i].0@);
    }
}

proof fn lemma_push<V>(v: Seq<(String, V)>, key: String, value: V)
    requires
        unique_keys(v),
        !has_key(v, key@),
    ensures
        unique_keys(v.push((key, value))),
        map_of(v.push((key, value))) == map_of(v).insert(key@, value),
{
    let w = v.push((key, value));
    assert forall|i: int, j: int| 0 <= i < j < w.len() implies #[trigger] w[i].0@
        != #[trigger] w[j].0@ by {
        if j == v.len() {
            assert(!key_at(v, key@, i));
        }
    }
    lemma_map_of(w, v.len() as int);
    assert forall|k: Seq<char>| has_key(w, k) <==> has_key(v, k) || k == key@ by {
        if has_key(v, k) {
            let i = choose|i: int| key_at(v, k, i);
            assert(key_at(w, k, i));
        }
        if has_key(w, k) {
            let i = choose|i: int| key_at(w, k, i);
            if i < v.len() {
                assert(key_at(v, k, i));
            }
        }
        assert(key_at(w, key@, v.len() as int));
    }
    assert forall|k: Seq<char>| has_key(v, k) implies map_of(w)[k] == map_of(v)[k] by {
        let i = choose|i: int| key_at(v, k, i);
        lemma_map_of(v, i);
        lemma_map_of(w, i);
    }
    assert(map_of(w) =~= map_of(v).insert(key@, value));
}

proof fn lemma_set<V>(v: Seq<(String, V)>, at: int, key: String, value: V)
    requires
        unique_keys(v),
        key_at(v, key@, at),
    ensures
        unique_keys(v.update(at, (key, value))),
        map_of(v.update(at, (key, value))) == map_of(v).insert(key@, value),
{
    let w = v.update(at, (key, value));
    assert forall|i: int| 0 <= i < v.len() implies (#[trigger] w[i]).0@ == v[i].0@ by {}
    assert forall|i: int, j: int| 0 <= i < j < w.len() implies #[trigger] w[i].0@
        != #[trigger] w[j].0@ by {
        assert(v[i].0@ != v[j].0@);
    }
    lemma_map_of(w, at);
    assert forall|k: Seq<char>| has_key(w, k) <==> has_key(v, k) by {
        if has_key(v, k) {
            let i = choose|i: int| key_at(v, k, i);
            assert(key_at(w, k, i));
        }
        if has_key(w, k) {
            let i = choose|i: int| key_at(w, k, i);
            assert(key_at(v, k, i));
        }
    }
    assert(key_at(v, key@, at));
    assert forall|k: Seq<char>| has_key(v, k) && k != key@ implies map_of(w)[k] == map_of(v)[k] by {
        let i = choose|i: int| key_at(v, k, i);
        lemma_map_of(v, i);
        lemma_map_of(w, i);
    }
    assert(map_of(w) =~= map_of(v).insert(key@, value));
}

/// A list with unique keys has as many entries as the map has keys.
pub proof fn lemma_dom_len<V>(v: Seq<(String, V)>)
    requires
        unique_keys(v),
    ensures
        map_of(v).dom().finite(),
        map_of(v).dom().len() == v.len(),
    decreases v.len(),
{
    if v.len() == 0 {
        assert forall|k: Seq<char>| !has_key(v, k) by {}
        assert(map_of(v).dom() =~= Set::empty());
    } else {
        let w = v.drop_last();
        let (key, value) = v.last();
        assert forall|a: int, b: int| 0 <= a < b < w.len() implies #[trigger] w[a].0@
            != #[trigger] w[b].0@ by {
            assert(v[a].0@ != v[b].0@);
        }
        if has_key(w, key@) {
            let j = choose|j: int| key_at(w, key@, j);
            assert(v[j].0@ != v[v.len() - 1].0@);
        }
        lemma_dom_len(w);
        lemma_push(w, key, value);
        assert(w.push((key, value)) =~= v);
        assert(map_of(v).dom() =~= map_of(w).dom().insert(key@));
    }
}

/// Sets in `map` all keys of `other`.
pub(crate) fn extend(map: &mut StrMap<String>, other: &StrMap<String>)
    ensures
        final(map)@ == old(map)@.union_prefer_right(other@),
        forall|i: int|
            0 <= i < final(map).pairs().len() ==> old(map).pairs().contains(
                #[trigger] final(map).pairs()[i],
            ) || other.pairs().contains(final(map).pairs()[i]),
{
    let entries = other.entries();
    let ghost all = entries@;
    let ghost was = map@;
    let ghost had = map.pairs();
    let mut i: usize = 0;
    proof {
        assert forall|k: Seq<char>| !has_key(all.take(0), k) by {}
        assert(was.union_prefer_right(map_of(all.take(0))) =~= was);
        assert forall|i: int| 0 <= i < map.pairs().len() implies had.contains(
            #[trigger] map.pairs()[i],
        ) by {}
    }
    while i < entries.len()
        invariant
            i <= all.len(),
            all == entries@,
            all == other.pairs(),
            unique_keys(all),
            map@ == was.union_prefer_right(map_of(all.take(i as int))),
            forall|i: int|
                0 <= i < map.pairs().len() ==> had.contains(#[trigger] map.pairs()[i])
                    || all.contains(map.pairs()[i]),
        decreases all.len() - i,
    {
        let ghost seen = all.take(i as int);
        let ghost before = map.pairs();
        let ghost (k, v) = all[i as int];
        proof {
            assert forall|a: int, b: int| 0 <= a < b < seen.len() implies #[trigger] seen[a].0@
                != #[trigger] seen[b].0@ by {
                assert(all[a].0@ != all[b].0@);
            }
            if has_key(seen, k@) {
                let j = choose|j: int| key_at(seen, k@, j);
                assert(all[j].0@ != all[i as int].0@);
            }
            lemma_push(seen, k, v);
            assert(all.take(i + 1) =~= seen.push((k, v)));
        }
        map.insert(entries[i].0.clone(), entries[i].1.clone());
        proof {
            assert(map@ =~= was.union_prefer_right(map_of(all.take(i + 1))));
            assert forall|j: int| 0 <= j < map.pairs().len() implies had.contains(
                #[trigger] map.pairs()[j],
            ) || all.contains(map.pairs()[j]) by {
                if map.pairs()[j] == (k, v) {
                    assert(all[i as int] == (k, v));
                } else {
                    let m = choose|m: int| 0 <= m < before.len() && before[m] == map.pairs()[j];
                    assert(before[m] == map.pairs()[j]);
                }
            }
        }
        i = i + 1;
    }
    assert(all.take(all.len() as int) =~= all);
}

impl<V> Default for StrMap<V> {
    fn default() -> (r: Self)
        ensures
            r@ == Map::<Seq<char>, V>::empty(),
    {
        StrMap::new()
    }
}

} // verus!
