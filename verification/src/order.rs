//! Stable ordering by a number and a text.

use vstd::prelude::*;
use vstd::relations::{sorted_by, total_ordering};

use crate::text;

verus! {

/// Whether `a` comes before `b` in lexicographic order, or is the same.
pub open spec fn lex_le(a: Seq<char>, b: Seq<char>) -> bool
    decreases a.len(),
{
    if a.len() == 0 {
        true
    } else if b.len() == 0 {
        false
    } else if a[0] == b[0] {
        lex_le(a.skip(1), b.skip(1))
    } else {
        a[0] < b[0]
    }
}

pub(crate) proof fn lemma_lex_antisymmetric(a: Seq<char>, b: Seq<char>)
    requires
        lex_le(a, b),
        lex_le(b, a),
    ensures
        a == b,
    decreases a.len(),
{
    if a.len() > 0 && b.len() > 0 {
        lemma_lex_antisymmetric(a.skip(1), b.skip(1));
        assert(a =~= seq![a[0]] + a.skip(1));
        assert(b =~= seq![b[0]] + b.skip(1));
    } else {
        assert(a =~= b);
    }
}

proof fn lemma_lex_transitive(a: Seq<char>, b: Seq<char>, c: Seq<char>)
    requires
        lex_le(a, b),
        lex_le(b, c),
    ensures
        lex_le(a, c),
    decreases a.len(),
{
    if a.len() > 0 && a[0] == b[0] && b[0] == c[0] {
        lemma_lex_transitive(a.skip(1), b.skip(1), c.skip(1));
    }
}

proof fn lemma_lex_total(a: Seq<char>, b: Seq<char>)
    ensures
        lex_le(a, b) || lex_le(b, a),
    decreases a.len(),
{
    if a.len() > 0 && b.len() > 0 && a[0] == b[0] {
        lemma_lex_total(a.skip(1), b.skip(1));
    }
}

/// By what a thing is ordered: a number first, a text among equal numbers.
pub struct Key {
    pub rank: i64,
    pub by: String,
}

/// What a key says.
pub struct KeyView {
    pub rank: int,
    pub by: Seq<char>,
}

pub open spec fn key_view(k: Key) -> KeyView {
    KeyView { rank: k.rank as int, by: k.by@ }
}

pub open spec fn key_views(v: Seq<Key>) -> Seq<KeyView> {
    v.map_values(|k: Key| key_view(k))
}

/// Whether the key at `i` comes before the one at `j`. Of equal keys the one that
/// stands first does.
pub open spec fn key_le(keys: Seq<KeyView>, i: int, j: int) -> bool {
    if keys[i].rank != keys[j].rank {
        keys[i].rank < keys[j].rank
    } else if keys[i].by != keys[j].by {
        lex_le(keys[i].by, keys[j].by)
    } else {
        i <= j
    }
}

/// The positions of the keys, in the order of the keys.
pub open spec fn order_of(keys: Seq<KeyView>) -> Seq<int> {
    positions(keys.len()).sort_by(|i: int, j: int| key_le(keys, i, j))
}

/// The first `n` positions.
pub open spec fn positions(n: nat) -> Seq<int> {
    Seq::new(n, |i: int| i)
}

/// Positions as integers.
pub open spec fn ints(v: Seq<usize>) -> Seq<int> {
    v.map_values(|i: usize| i as int)
}

proof fn lemma_key_transitive(keys: Seq<KeyView>, i: int, j: int, k: int)
    requires
        key_le(keys, i, j),
        key_le(keys, j, k),
    ensures
        key_le(keys, i, k),
{
    if keys[i].rank == keys[j].rank && keys[j].rank == keys[k].rank {
        if keys[i].by != keys[j].by && keys[j].by != keys[k].by {
            lemma_lex_transitive(keys[i].by, keys[j].by, keys[k].by);
            if keys[i].by == keys[k].by {
                lemma_lex_antisymmetric(keys[i].by, keys[j].by);
            }
        }
    }
}

proof fn lemma_key_order(keys: Seq<KeyView>)
    ensures
        total_ordering(|i: int, j: int| key_le(keys, i, j)),
{
    let le = |i: int, j: int| key_le(keys, i, j);
    assert forall|i: int, j: int| #[trigger] le(i, j) && #[trigger] le(j, i) implies i == j by {
        if keys[i].by != keys[j].by && keys[i].rank == keys[j].rank {
            lemma_lex_antisymmetric(keys[i].by, keys[j].by);
        }
    }
    assert forall|i: int, j: int, k: int| #[trigger] le(i, j) && #[trigger] le(j, k) implies le(
        i,
        k,
    ) by {
        lemma_key_transitive(keys, i, j, k);
    }
    assert forall|i: int, j: int| #[trigger] le(i, j) || #[trigger] le(j, i) by {
        lemma_lex_total(keys[i].by, keys[j].by);
    }
}

fn text_le(a: &str, b: &str) -> (r: bool)
    ensures
        r == lex_le(a@, b@),
{
    let x = text::to_chars(a);
    let y = text::to_chars(b);
    let mut i: usize = 0;
    assert(x@.skip(0) =~= x@);
    assert(y@.skip(0) =~= y@);
    while i < x.len() && i < y.len() && x[i] == y[i]
        invariant
            x@ == a@,
            y@ == b@,
            i <= x@.len(),
            i <= y@.len(),
            lex_le(a@, b@) == lex_le(x@.skip(i as int), y@.skip(i as int)),
        decreases x@.len() - i,
    {
        assert(x@.skip(i as int).skip(1) =~= x@.skip(i + 1));
        assert(y@.skip(i as int).skip(1) =~= y@.skip(i + 1));
        i = i + 1;
    }
    if i >= x.len() {
        true
    } else if i >= y.len() {
        false
    } else {
        x[i] < y[i]
    }
}

fn is_key_le(keys: &Vec<Key>, i: usize, j: usize) -> (r: bool)
    requires
        i < keys@.len(),
        j < keys@.len(),
    ensures
        r == key_le(key_views(keys@), i as int, j as int),
{
    let a = &keys[i];
    let b = &keys[j];
    if a.rank != b.rank {
        a.rank < b.rank
    } else if !text::str_eq(a.by.as_str(), b.by.as_str()) {
        text_le(a.by.as_str(), b.by.as_str())
    } else {
        i <= j
    }
}

/// The positions of the keys, in the order of the keys.
pub fn sort_order(keys: &Vec<Key>) -> (r: Vec<usize>)
    ensures
        ints(r@) == order_of(key_views(keys@)),
{
    broadcast use vstd::seq_lib::group_to_multiset_ensures;

    let ghost le = |i: int, j: int| key_le(key_views(keys@), i, j);
    let mut out: Vec<usize> = Vec::new();
    let mut n: usize = 0;
    assert(ints(out@) =~= positions(0));
    while n < keys.len()
        invariant
            n <= keys@.len(),
            out@.len() == n,
            le == (|i: int, j: int| key_le(key_views(keys@), i, j)),
            forall|i: int| 0 <= i < n ==> (#[trigger] out@[i]) < n,
            sorted_by(ints(out@), le),
            ints(out@).to_multiset() == positions(n as nat).to_multiset(),
        decreases keys@.len() - n,
    {
        broadcast use vstd::seq_lib::group_to_multiset_ensures;

        let mut pos: usize = n;
        while pos > 0 && !is_key_le(keys, out[pos - 1], n)
            invariant
                n < keys@.len(),
                out@.len() == n,
                pos <= n,
                forall|i: int| 0 <= i < n ==> (#[trigger] out@[i]) < n,
                forall|i: int|
                    pos <= i < n ==> !key_le(key_views(keys@), (#[trigger] out@[i]) as int, n as int),
            decreases pos,
        {
            pos = pos - 1;
        }
        let ghost before = ints(out@);
        out.insert(pos, n);
        proof {
            let after = ints(out@);
            assert(after =~= before.insert(pos as int, n as int));
            assert(positions((n + 1) as nat) =~= positions(n as nat).push(n as int));
            lemma_key_order(key_views(keys@));
            assert forall|i: int, j: int| 0 <= i < j < after.len() implies #[trigger] le(
                after[i],
                after[j],
            ) by {
                if i < pos && j < pos {
                    assert(le(before[i], before[j]));
                } else if i < pos && j == pos {
                    assert(le(before[pos - 1], n as int));
                    if i < pos - 1 {
                        assert(le(before[i], before[pos - 1]));
                        lemma_key_transitive(key_views(keys@), before[i], before[pos - 1], n as int);
                    }
                } else if i < pos {
                    assert(le(before[i], before[j - 1]));
                } else if i == pos {
                    assert(!key_le(key_views(keys@), before[j - 1], n as int));
                    assert(le(before[j - 1], n as int) || le(n as int, before[j - 1]));
                } else {
                    assert(le(before[i - 1], before[j - 1]));
                }
            }
        }
        n = n + 1;
    }
    proof {
        lemma_key_order(key_views(keys@));
        positions(keys@.len()).lemma_sort_by_ensures(le);
        vstd::seq_lib::lemma_sorted_unique(ints(out@), order_of(key_views(keys@)), le);
    }
    out
}

/// The order holds each position once, and its keys ascend; equal keys stay as
/// they stood.
pub proof fn lemma_order(keys: Seq<KeyView>)
    ensures
        order_of(keys).len() == keys.len(),
        order_of(keys).no_duplicates(),
        forall|i: int| 0 <= i < keys.len() ==> 0 <= #[trigger] order_of(keys)[i] < keys.len(),
        forall|i: int| 0 <= i < keys.len() ==> order_of(keys).contains(i),
        forall|i: int, j: int|
            0 <= i < j < keys.len() ==> key_le(
                keys,
                #[trigger] order_of(keys)[i],
                #[trigger] order_of(keys)[j],
            ),
{
    broadcast use vstd::seq_lib::group_to_multiset_ensures;

    let le = |i: int, j: int| key_le(keys, i, j);
    let p = positions(keys.len());
    let o = order_of(keys);
    lemma_key_order(keys);
    p.lemma_sort_by_ensures(le);
    assert(p.to_multiset().len() == p.len());
    assert(o.to_multiset().len() == o.len());
    assert forall|i: int| 0 <= i < keys.len() implies 0 <= #[trigger] o[i] < keys.len() by {
        assert(o.contains(o[i]));
        assert(p.contains(o[i]));
    }
    assert forall|i: int| 0 <= i < keys.len() implies o.contains(i) by {
        assert(p[i] == i);
        assert(p.contains(i));
        assert(o.to_multiset().count(i) > 0);
    }
    assert forall|i: int, j: int| 0 <= i < j < keys.len() implies key_le(
        keys,
        #[trigger] o[i],
        #[trigger] o[j],
    ) by {
        assert(le(o[i], o[j]));
    }
    assert(p.no_duplicates());
    p.lemma_multiset_has_no_duplicates();
    o.lemma_multiset_has_no_duplicates_conv();
}

/// Where texts first differ, the lesser character comes first; a beginning of a text comes
/// before it.
pub proof fn lemma_lex(p: Seq<char>, a: char, b: char, x: Seq<char>, y: Seq<char>)
    ensures
        a < b ==> lex_le(p + seq![a] + x, p + seq![b] + y),
        a < b ==> !lex_le(p + seq![b] + y, p + seq![a] + x),
        lex_le(p, p + x),
        x.len() > 0 ==> !lex_le(p + x, p),
    decreases p.len(),
{
    if p.len() > 0 {
        let q = p.skip(1);
        lemma_lex(q, a, b, x, y);
        assert((p + seq![a] + x).skip(1) =~= q + seq![a] + x);
        assert((p + seq![b] + y).skip(1) =~= q + seq![b] + y);
        assert((p + x).skip(1) =~= q + x);
    } else {
        assert((p + seq![a] + x)[0] == a);
        assert((p + seq![b] + y)[0] == b);
    }
}

/// What comes earlier in the order has the lesser number; of equal numbers the text that
/// comes first in lexicographic order; and of equal keys the one that stood first.
pub proof fn lemma_ordered_by(keys: Seq<KeyView>, i: int, j: int)
    requires
        0 <= i < j < keys.len(),
    ensures
        ({
            let (a, b) = (order_of(keys)[i], order_of(keys)[j]);
            &&& keys[a].rank <= keys[b].rank
            &&& keys[a].rank == keys[b].rank ==> lex_le(keys[a].by, keys[b].by)
            &&& keys[a].rank == keys[b].rank && keys[a].by == keys[b].by ==> a < b
        }),
{
    lemma_order(keys);
    let (a, b) = (order_of(keys)[i], order_of(keys)[j]);
    assert(key_le(keys, a, b));
    lemma_lex_total(keys[a].by, keys[a].by);
}

} // verus!
