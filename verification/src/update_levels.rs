//! How deep the shared types of a Yjs update nest in one another.
//!
//! An item stands in the type that its parent is, or beside its neighbours, in the type in
//! which they stand. The levels of the items are found by raising them until each is high
//! enough.

use vstd::prelude::*;

verus! {

/// How deep shared types may nest in one another.
pub const MAX_NESTING: u32 = 500;

/// What an item refers to: the type in which and the items beside which it stands.
pub struct Links {
    pub parent: Option<(u32, u32)>,
    pub left: Option<(u32, u32)>,
    pub right: Option<(u32, u32)>,
}

/// An item: its client, its clocks from `start` to before `end`, and what it refers to.
pub struct Entry {
    pub client: u32,
    pub start: u64,
    pub end: u64,
    pub links: Links,
}

/// Whether an id is one of the clocks of an item.
pub open spec fn holds_id(e: Entry, id: (u32, u32)) -> bool {
    e.client == id.0 && e.start <= id.1 < e.end
}

/// Whether an item is what is referred to.
pub open spec fn refers(o: Option<(u32, u32)>, e: Entry) -> bool {
    o is Some && holds_id(e, o->0)
}

/// Whether the level of the item `i` goes with that of the item `j`: it is higher where `i`
/// stands in `j`, and no lower where `i` stands beside `j`.
pub open spec fn goes_with(v: Seq<Entry>, levels: Seq<u32>, i: int, j: int) -> bool {
    &&& refers(v[i].links.parent, v[j]) ==> levels[j] < levels[i]
    &&& refers(v[i].links.left, v[j]) ==> levels[j] <= levels[i]
    &&& refers(v[i].links.right, v[j]) ==> levels[j] <= levels[i]
}

/// Whether the levels of the items go with one another, and none is too high.
pub open spec fn is_levels(v: Seq<Entry>, levels: Seq<u32>) -> bool {
    &&& levels.len() == v.len()
    &&& forall|i: int| 0 <= i < levels.len() ==> #[trigger] levels[i] <= MAX_NESTING
    &&& forall|i: int, j: int|
        0 <= i < v.len() && 0 <= j < v.len() ==> #[trigger] goes_with(v, levels, i, j)
}

/// Whether types do not nest too deep in one another: the items have levels.
pub open spec fn is_shallow(v: Seq<Entry>) -> bool {
    exists|levels: Seq<u32>| is_levels(v, levels)
}

/// Where the items of a client stand.
pub(crate) struct Section {
    pub client: u32,
    pub from: usize,
    pub to: usize,
}

/// Whether there is a section for a client.
pub(crate) open spec fn has_section(s: Seq<Section>, client: u32) -> bool {
    exists|k: int| 0 <= k < s.len() && (#[trigger] s[k]).client == client
}

/// Whether the items from `from` on are of one client and lie in order below `next`.
pub(crate) open spec fn in_order(v: Seq<Entry>, from: int, client: u32, next: int) -> bool {
    &&& forall|i: int|
        from <= i < v.len() ==> (#[trigger] v[i]).client == client && v[i].start <= v[i].end
            && v[i].end <= next
    &&& forall|i: int, j: int|
        from <= i < j < v.len() ==> (#[trigger] v[i]).end <= (#[trigger] v[j]).start
}

/// Whether the sections hold the items by client, in order.
pub(crate) open spec fn in_sections(v: Seq<Entry>, s: Seq<Section>) -> bool {
    &&& forall|k: int|
        0 <= k < s.len() ==> (#[trigger] s[k]).from <= s[k].to && s[k].to <= v.len()
    &&& forall|k: int, i: int|
        0 <= k < s.len() && 0 <= i < v.len() ==> ((#[trigger] v[i]).client == (
        #[trigger] s[k]).client <==> s[k].from <= i < s[k].to)
    &&& forall|i: int, j: int|
        0 <= i < j < v.len() && v[i].client == v[j].client ==> (#[trigger] v[i]).end <= (
        #[trigger] v[j]).start
    &&& forall|i: int| 0 <= i < v.len() ==> (#[trigger] v[i]).start <= v[i].end
    &&& forall|i: int| 0 <= i < v.len() ==> has_section(s, (#[trigger] v[i]).client)
}

/// Sections stay in order when the items of another client follow.
pub(crate) proof fn lemma_next_section(
    v: Seq<Entry>,
    s: Seq<Section>,
    w: Seq<Entry>,
    section: Section,
    next: int,
)
    requires
        in_sections(v, s),
        v.len() <= w.len(),
        forall|i: int| 0 <= i < v.len() ==> #[trigger] w[i] == v[i],
        in_order(w, v.len() as int, section.client, next),
        section.from == v.len(),
        section.to == w.len(),
        !has_section(s, section.client),
    ensures
        in_sections(w, s.push(section)),
{
    let t = s.push(section);
    assert(t[s.len() as int] == section);
    assert forall|k: int, i: int| 0 <= k < t.len() && 0 <= i < w.len() implies ((
    #[trigger] w[i]).client == (#[trigger] t[k]).client <==> t[k].from <= i < t[k].to) by {
        if k < s.len() {
            assert(t[k] == s[k]);
            assert(s[k].client != section.client);
        } else if i < v.len() {
            assert(has_section(s, v[i].client));
        }
    }
    assert forall|i: int, j: int|
        0 <= i < j < w.len() && w[i].client == w[j].client implies (#[trigger] w[i]).end <= (
    #[trigger] w[j]).start by {
        if j < v.len() {
            assert(w[i] == v[i] && w[j] == v[j]);
        } else if i < v.len() {
            assert(has_section(s, v[i].client));
        }
    }
    assert forall|i: int| 0 <= i < w.len() implies has_section(t, (#[trigger] w[i]).client) by {
        if i < v.len() {
            assert(has_section(s, v[i].client));
            let k = choose|k: int| 0 <= k < s.len() && (#[trigger] s[k]).client == v[i].client;
            assert(t[k] == s[k]);
        }
    }
}

/// The item that holds an id.
fn find(v: &Vec<Entry>, s: &Vec<Section>, o: Option<(u32, u32)>) -> (r: Option<usize>)
    requires
        in_sections(v@, s@),
    ensures
        match r {
            Some(j) => j < v@.len() && refers(o, v@[j as int]) && forall|i: int|
                0 <= i < v@.len() && refers(o, #[trigger] v@[i]) ==> i == j,
            None => forall|i: int| 0 <= i < v@.len() ==> !refers(o, #[trigger] v@[i]),
        },
{
    let id = match o {
        Some(id) => id,
        None => {
            return None;
        },
    };
    let clock: u64 = id.1 as u64;
    let mut k: usize = 0;
    while k < s.len()
        invariant
            k <= s@.len(),
            o == Some(id),
            clock == id.1,
            in_sections(v@, s@),
            forall|m: int| 0 <= m < k ==> (#[trigger] s@[m]).client != id.0,
        decreases s@.len() - k,
    {
        if s[k].client == id.0 {
            let mut low: usize = s[k].from;
            let mut high: usize = s[k].to;
            while low < high
                invariant
                    k < s@.len(),
                    s@[k as int].client == id.0,
                    o == Some(id),
                    clock == id.1,
                    in_sections(v@, s@),
                    s@[k as int].from <= low <= high <= s@[k as int].to,
                    forall|i: int|
                        s@[k as int].from <= i < low ==> (#[trigger] v@[i]).end <= clock,
                    forall|i: int|
                        high <= i < s@[k as int].to ==> clock < (#[trigger] v@[i]).start,
                decreases high - low,
            {
                let mid: usize = low + (high - low) / 2;
                assert(v@[mid as int].client == s@[k as int].client);
                if clock < v[mid].start {
                    assert forall|i: int| mid <= i < s@[k as int].to implies clock < (
                    #[trigger] v@[i]).start by {
                        assert(v@[i].client == s@[k as int].client);
                    }
                    high = mid;
                } else if v[mid].end <= clock {
                    assert forall|i: int| s@[k as int].from <= i <= mid implies (
                    #[trigger] v@[i]).end <= clock by {
                        assert(v@[i].client == s@[k as int].client);
                    }
                    low = mid + 1;
                } else {
                    assert forall|i: int|
                        0 <= i < v@.len() && refers(o, #[trigger] v@[i]) implies i == mid by {}
                    return Some(mid);
                }
            }
            assert forall|i: int| 0 <= i < v@.len() implies !refers(o, #[trigger] v@[i]) by {
                if v@[i].client == s@[k as int].client {
                    assert(i < low || i >= high);
                }
            }
            return None;
        }
        k = k + 1;
    }
    assert forall|i: int| 0 <= i < v@.len() implies !refers(o, #[trigger] v@[i]) by {
        assert(has_section(s@, v@[i].client));
    }
    None
}

/// What an item refers to, found among the items.
struct Found {
    parent: Option<usize>,
    left: Option<usize>,
    right: Option<usize>,
}

/// Whether `r` is where what is referred to stands.
#[verifier::opaque]
spec fn found_at(v: Seq<Entry>, o: Option<(u32, u32)>, r: Option<usize>) -> bool {
    match r {
        Some(j) => j < v.len() && refers(o, v[j as int]) && forall|i: int|
            0 <= i < v.len() && refers(o, #[trigger] v[i]) ==> i == j,
        None => forall|i: int| 0 <= i < v.len() ==> !refers(o, #[trigger] v[i]),
    }
}

/// Whether all that the items refer to was found.
spec fn all_found(v: Seq<Entry>, f: Seq<Found>) -> bool {
    &&& f.len() == v.len()
    &&& forall|i: int|
        0 <= i < v.len() ==> found_at(v, (#[trigger] v[i]).links.parent, f[i].parent) && found_at(
            v,
            v[i].links.left,
            f[i].left,
        ) && found_at(v, v[i].links.right, f[i].right)
}

fn find_all(v: &Vec<Entry>, s: &Vec<Section>) -> (r: Vec<Found>)
    requires
        in_sections(v@, s@),
    ensures
        all_found(v@, r@),
{
    let mut out: Vec<Found> = Vec::new();
    let mut i: usize = 0;
    while i < v.len()
        invariant
            i <= v@.len(),
            out@.len() == i,
            in_sections(v@, s@),
            forall|k: int|
                0 <= k < i ==> found_at(v@, (#[trigger] v@[k]).links.parent, out@[k].parent)
                    && found_at(v@, v@[k].links.left, out@[k].left) && found_at(
                    v@,
                    v@[k].links.right,
                    out@[k].right,
                ),
        decreases v@.len() - i,
    {
        proof {
            reveal(found_at);
        }
        let f = Found {
            parent: find(v, s, v[i].links.parent),
            left: find(v, s, v[i].links.left),
            right: find(v, s, v[i].links.right),
        };
        out.push(f);
        i = i + 1;
    }
    out
}

/// The sum of how far the levels may rise yet.
spec fn room(levels: Seq<u32>) -> int
    decreases levels.len(),
{
    if levels.len() == 0 {
        0
    } else {
        room(levels.drop_last()) + (MAX_NESTING - levels.last())
    }
}

proof fn lemma_room(levels: Seq<u32>)
    requires
        forall|i: int| 0 <= i < levels.len() ==> #[trigger] levels[i] <= MAX_NESTING,
    ensures
        room(levels) >= 0,
    decreases levels.len(),
{
    if levels.len() > 0 {
        lemma_room(levels.drop_last());
    }
}

proof fn lemma_raise(levels: Seq<u32>, i: int, n: u32)
    requires
        0 <= i < levels.len(),
    ensures
        room(levels.update(i, n)) == room(levels) - (n - levels[i]),
    decreases levels.len(),
{
    let raised = levels.update(i, n);
    if i < levels.len() - 1 {
        assert(raised.drop_last() =~= levels.drop_last().update(i, n));
        lemma_raise(levels.drop_last(), i, n);
    } else {
        assert(raised.drop_last() =~= levels.drop_last());
    }
}

/// Whether no levels of the items are lower.
#[verifier::opaque]
spec fn is_least(v: Seq<Entry>, levels: Seq<u32>) -> bool {
    forall|other: Seq<u32>, i: int|
        #![trigger is_levels(v, other), levels[i]]
        is_levels(v, other) && 0 <= i < levels.len() ==> levels[i] <= other[i]
}

/// The level that an item needs by what it refers to.
fn needed(f: &Found, levels: &Vec<u32>) -> (r: u32)
    requires
        f.parent matches Some(j) ==> j < levels@.len(),
        f.left matches Some(j) ==> j < levels@.len(),
        f.right matches Some(j) ==> j < levels@.len(),
        forall|i: int| 0 <= i < levels@.len() ==> #[trigger] levels@[i] <= MAX_NESTING,
    ensures
        f.parent matches Some(j) ==> levels@[j as int] < r,
        f.left matches Some(j) ==> levels@[j as int] <= r,
        f.right matches Some(j) ==> levels@[j as int] <= r,
        r == 0 || (f.parent matches Some(j) && r == levels@[j as int] + 1) || (
        f.left matches Some(j) && r == levels@[j as int]) || (f.right matches Some(j) && r
            == levels@[j as int]),
{
    let mut r: u32 = 0;
    if let Some(j) = f.parent {
        r = levels[j] + 1;
    }
    if let Some(j) = f.left {
        if levels[j] > r {
            r = levels[j];
        }
    }
    if let Some(j) = f.right {
        if levels[j] > r {
            r = levels[j];
        }
    }
    r
}

/// Whether no level is too high.
spec fn is_bounded(levels: Seq<u32>) -> bool {
    forall|i: int| 0 <= i < levels.len() ==> #[trigger] levels[i] <= MAX_NESTING
}

/// Whether the level of an item goes with those of all items.
spec fn goes_with_all(v: Seq<Entry>, levels: Seq<u32>, i: int) -> bool {
    forall|j: int| 0 <= j < v.len() ==> #[trigger] goes_with(v, levels, i, j)
}

/// Raises the level of an item to what it needs, and returns whether it had to; nothing
/// where that is too high.
fn raise(f: &Found, levels: &mut Vec<u32>, i: usize, Ghost(v): Ghost<Seq<Entry>>) -> (r: Option<
    bool,
>)
    requires
        i < v.len(),
        old(levels)@.len() == v.len(),
        is_bounded(old(levels)@),
        is_least(v, old(levels)@),
        found_at(v, v[i as int].links.parent, f.parent),
        found_at(v, v[i as int].links.left, f.left),
        found_at(v, v[i as int].links.right, f.right),
    ensures
        final(levels)@.len() == v.len(),
        is_bounded(final(levels)@),
        is_least(v, final(levels)@),
        match r {
            None => !is_shallow(v),
            Some(true) => room(final(levels)@) < room(old(levels)@),
            Some(false) => final(levels)@ == old(levels)@ && goes_with_all(
                v,
                old(levels)@,
                i as int,
            ),
        },
{
    proof {
        reveal(found_at);
        reveal(is_least);
    }
    let ghost was = levels@;
    let n: u32 = needed(f, levels);
    proof {
        lemma_needed(v, was, *f, i as int, n);
    }
    if n <= levels[i] {
        return Some(false);
    }
    if n > MAX_NESTING {
        assert(!is_shallow(v)) by {
            if is_shallow(v) {
                let other = choose|other: Seq<u32>| is_levels(v, other);
                assert(n <= other[i as int]);
            }
        }
        return None;
    }
    proof {
        lemma_raise(was, i as int, n);
    }
    levels.set(i, n);
    assert forall|other: Seq<u32>, k: int|
        #![trigger is_levels(v, other), levels@[k]]
        is_levels(v, other) && 0 <= k < levels@.len() implies levels@[k] <= other[k] by {
        if k != i {
            assert(levels@[k] == was[k]);
        }
    }
    Some(true)
}

/// Raises the levels of all items once, and returns whether any had to be raised; nothing
/// where one is too high.
fn raise_all(v: &Vec<Entry>, found: &Vec<Found>, levels: &mut Vec<u32>) -> (r: Option<bool>)
    requires
        all_found(v@, found@),
        old(levels)@.len() == v@.len(),
        is_bounded(old(levels)@),
        is_least(v@, old(levels)@),
    ensures
        final(levels)@.len() == v@.len(),
        is_bounded(final(levels)@),
        is_least(v@, final(levels)@),
        match r {
            None => !is_shallow(v@),
            Some(true) => room(final(levels)@) < room(old(levels)@),
            Some(false) => is_levels(v@, final(levels)@),
        },
{
    let ghost start = levels@;
    let mut changed = false;
    let mut i: usize = 0;
    while i < v.len()
        invariant
            i <= v@.len(),
            start == old(levels)@,
            all_found(v@, found@),
            levels@.len() == v@.len(),
            is_bounded(levels@),
            is_least(v@, levels@),
            changed ==> room(levels@) < room(start),
            !changed ==> levels@ == start,
            !changed ==> forall|k: int| 0 <= k < i ==> #[trigger] goes_with_all(v@, start, k),
        decreases v@.len() - i,
    {
        assert(found_at(v@, v@[i as int].links.parent, found@[i as int].parent));
        match raise(&found[i], levels, i, Ghost(v@)) {
            None => {
                return None;
            },
            Some(raised) => {
                if raised {
                    changed = true;
                }
            },
        }
        i = i + 1;
    }
    if !changed {
        assert forall|k: int, j: int| 0 <= k < v@.len() && 0 <= j < v@.len() implies
            #[trigger] goes_with(v@, start, k, j) by {
            assert(goes_with_all(v@, start, k));
        }
    }
    Some(changed)
}

/// Whether the types of the items do not nest too deep in one another.
pub(crate) fn check_shallow(v: &Vec<Entry>, s: &Vec<Section>) -> (r: bool)
    requires
        in_sections(v@, s@),
    ensures
        r == is_shallow(v@),
{
    let found = find_all(v, s);
    let mut levels: Vec<u32> = Vec::new();
    let mut i: usize = 0;
    while i < v.len()
        invariant
            i <= v@.len(),
            levels@.len() == i,
            forall|k: int| 0 <= k < i ==> #[trigger] levels@[k] == 0,
        decreases v@.len() - i,
    {
        levels.push(0);
        i = i + 1;
    }
    proof {
        reveal(is_least);
    }
    loop
        invariant
            all_found(v@, found@),
            levels@.len() == v@.len(),
            is_bounded(levels@),
            is_least(v@, levels@),
        decreases room(levels@),
    {
        match raise_all(v, &found, &mut levels) {
            None => {
                return false;
            },
            Some(changed) => {
                if !changed {
                    assert(is_levels(v@, levels@));
                    return true;
                }
            },
        }
        proof {
            lemma_room(levels@);
        }
    }
}

/// What an item needs, every level of it has; and where it has that, its level goes with
/// the others.
proof fn lemma_needed(v: Seq<Entry>, levels: Seq<u32>, f: Found, i: int, n: u32)
    requires
        0 <= i < v.len(),
        levels.len() == v.len(),
        is_least(v, levels),
        found_at(v, v[i].links.parent, f.parent),
        found_at(v, v[i].links.left, f.left),
        found_at(v, v[i].links.right, f.right),
        f.parent matches Some(j) ==> levels[j as int] < n,
        f.left matches Some(j) ==> levels[j as int] <= n,
        f.right matches Some(j) ==> levels[j as int] <= n,
        n == 0 || (f.parent matches Some(j) && n == levels[j as int] + 1) || (
        f.left matches Some(j) && n == levels[j as int]) || (f.right matches Some(j) && n
            == levels[j as int]),
    ensures
        forall|other: Seq<u32>| #[trigger] is_levels(v, other) ==> n <= other[i],
        n <= levels[i] ==> forall|j: int|
            0 <= j < v.len() ==> #[trigger] goes_with(v, levels, i, j),
{
    reveal(found_at);
    reveal(is_least);
    assert forall|other: Seq<u32>| #[trigger] is_levels(v, other) implies n <= other[i] by {
        if let Some(j) = f.parent {
            assert(goes_with(v, other, i, j as int));
            assert(levels[j as int] <= other[j as int]);
        }
        if let Some(j) = f.left {
            assert(goes_with(v, other, i, j as int));
            assert(levels[j as int] <= other[j as int]);
        }
        if let Some(j) = f.right {
            assert(goes_with(v, other, i, j as int));
            assert(levels[j as int] <= other[j as int]);
        }
    }
    if n <= levels[i] {
        assert forall|j: int| 0 <= j < v.len() implies #[trigger] goes_with(v, levels, i, j) by {
            assert(refers(v[i].links.parent, v[j]) ==> f.parent == Some(j as usize));
            assert(refers(v[i].links.left, v[j]) ==> f.left == Some(j as usize));
            assert(refers(v[i].links.right, v[j]) ==> f.right == Some(j as usize));
        }
    }
}

} // verus!
