//! Markdown to rich-text documents.
//!
//! Markdown source text becomes a rich-text fragment as the TipTap editor stores
//! it: a block for each heading, list, quote, table, code block, image or
//! paragraph, with inline marks (bold, italic, strike, code, link) on the text.
//!
//! The entry point is [`write_markdown_to_fragment`]. [`write_description`]
//! clears and repopulates an item's `description` fragment in place.
//! [`build_short_id_lookup`] builds the map that resolves `[[WDO-42]]` item
//! references.

use std::collections::HashMap;

use vstd::prelude::*;
use yrs::types::xml::XmlIn;
use yrs::{MapRef, Transaction, TransactionMut, XmlFragmentRef};

use crate::codec;
use crate::rich_text::{self, XmlTree};
use crate::text;
use crate::ydoc;

pub use self::content::ItemResolver;

pub mod block;
pub mod content;
pub mod inline_laws;
pub mod laws;
pub mod segment;
pub mod table;

verus! {

/// What a fragment holds that held `was`, once `new` was inserted at its front and the
/// first of the new nodes came to stand at `k`.
pub open spec fn spread(was: Seq<XmlTree>, new: Seq<XmlTree>, k: int) -> Seq<XmlTree> {
    let first = was.insert(k, new[0]);
    first.take(1) + new.skip(1) + first.skip(1)
}

/// Whether a fragment that held `was` can hold `now`, once `new` was inserted at its
/// front. Into an empty fragment the nodes go as they are. Otherwise the first of them
/// may come to stand behind nodes that other clients wrote; the others follow what is
/// then at the front.
pub open spec fn inserted(was: Seq<XmlTree>, new: Seq<XmlTree>, now: Seq<XmlTree>) -> bool {
    if new.len() == 0 {
        now == was
    } else if was.len() == 0 {
        now == new
    } else {
        exists|k: int| 0 <= k <= was.len() && now == #[trigger] spread(was, new, k)
    }
}

/// Nodes that are inserted are added to those that were there: none is lost, and none
/// comes twice.
pub proof fn lemma_inserted(was: Seq<XmlTree>, new: Seq<XmlTree>, now: Seq<XmlTree>)
    requires
        inserted(was, new, now),
    ensures
        now.to_multiset() == was.to_multiset().add(new.to_multiset()),
{
    broadcast use vstd::seq_lib::group_to_multiset_ensures;

    if new.len() == 0 {
        assert(new =~= seq![]);
        assert(now.to_multiset() =~= was.to_multiset().add(new.to_multiset()));
    } else if was.len() == 0 {
        assert(was =~= seq![]);
        assert(now.to_multiset() =~= was.to_multiset().add(new.to_multiset()));
    } else {
        let k = choose|k: int| 0 <= k <= was.len() && now == #[trigger] spread(was, new, k);
        let first = was.insert(k, new[0]);
        vstd::seq_lib::lemma_multiset_commutative(first.take(1) + new.skip(1), first.skip(1));
        vstd::seq_lib::lemma_multiset_commutative(first.take(1), new.skip(1));
        vstd::seq_lib::lemma_multiset_commutative(first.take(1), first.skip(1));
        assert(first.take(1) + first.skip(1) =~= first);
        vstd::seq_lib::lemma_multiset_commutative(was.take(k) + seq![new[0]], was.skip(k));
        vstd::seq_lib::lemma_multiset_commutative(was.take(k), seq![new[0]]);
        vstd::seq_lib::lemma_multiset_commutative(was.take(k), was.skip(k));
        assert(was.take(k) + seq![new[0]] + was.skip(k) =~= first);
        assert(was.take(k) + was.skip(k) =~= was);
        vstd::seq_lib::lemma_multiset_commutative(seq![new[0]], new.skip(1));
        assert(seq![new[0]] + new.skip(1) =~= new);
        let (a, b, c) = (
            first.take(1).to_multiset(),
            new.skip(1).to_multiset(),
            first.skip(1).to_multiset(),
        );
        let (n, w1, w2) = (
            seq![new[0]].to_multiset(),
            was.take(k).to_multiset(),
            was.skip(k).to_multiset(),
        );
        assert(now.to_multiset() == a.add(b).add(c));
        assert(first.to_multiset() == a.add(c));
        assert(first.to_multiset() == w1.add(n).add(w2));
        assert(was.to_multiset() == w1.add(w2));
        assert(new.to_multiset() == n.add(b));
        assert(a.add(b).add(c) =~= a.add(c).add(b));
        assert(w1.add(n).add(w2).add(b) =~= w1.add(w2).add(n.add(b)));
    }
}

/// Writes Markdown content to a fragment, at its front.
///
/// Supports headings (levels 1-6), paragraphs, `- ` and `* ` lists, task lists,
/// numbered lists, quotes, fenced code, GFM tables, images, inline formatting and
/// `[[WDO-42]]` item references (which need a resolver).
pub fn write_markdown_to_fragment(
    txn: &mut TransactionMut<'_>,
    frag: &XmlFragmentRef,
    content: &str,
    resolver: Option<ItemResolver<'_>>,
)
    requires
        content@.len() <= u32::MAX,
        !ydoc::fragment_deleted(*old(txn), *frag),
    ensures
        inserted(
            ydoc::fragment_nodes(*old(txn), *frag),
            block::markdown_blocks(content@, content::resolver_view(resolver)),
            ydoc::fragment_nodes(*final(txn), *frag),
        ),
        !ydoc::fragment_deleted(*final(txn), *frag),
        ydoc::map_kept(*old(txn), *final(txn), *frag),
{
    let blocks = block::parse_blocks(content, resolver);
    let nodes = ydoc::to_xml_ins(&blocks);
    proof {
        block::lemma_blocks_len(content@, content::resolver_view(resolver));
    }
    insert_all(txn, frag, nodes);
}

/// Writes Markdown content to a fragment, at its front, and returns whether it did: a fragment that was deleted is left as it is.
pub fn try_write_markdown_to_fragment(
    txn: &mut TransactionMut<'_>,
    frag: &XmlFragmentRef,
    content: &str,
    resolver: Option<ItemResolver<'_>>,
) -> (r: bool)
    requires
        content@.len() <= u32::MAX,
    ensures
        r == !ydoc::fragment_deleted(*old(txn), *frag),
        r ==> inserted(
            ydoc::fragment_nodes(*old(txn), *frag),
            block::markdown_blocks(content@, content::resolver_view(resolver)),
            ydoc::fragment_nodes(*final(txn), *frag),
        ),
        r ==> ydoc::map_kept(*old(txn), *final(txn), *frag),
        !r ==> *final(txn) == *old(txn),
{
    if ydoc::is_fragment_deleted(txn, frag) {
        return false;
    }
    write_markdown_to_fragment(txn, frag, content, resolver);
    true
}

/// Inserts the nodes at the front of a fragment.
fn insert_all(txn: &mut TransactionMut<'_>, frag: &XmlFragmentRef, nodes: Vec<XmlIn>)
    requires
        nodes@.len() <= u32::MAX,
        !ydoc::fragment_deleted(*old(txn), *frag),
    ensures
        inserted(
            ydoc::fragment_nodes(*old(txn), *frag),
            ydoc::xml_ins_tree(nodes@),
            ydoc::fragment_nodes(*final(txn), *frag),
        ),
        !ydoc::fragment_deleted(*final(txn), *frag),
        ydoc::map_kept(*old(txn), *final(txn), *frag),
{
    let ghost all = nodes@;
    let ghost trees = ydoc::xml_ins_tree(all);
    let ghost was = ydoc::fragment_nodes(*txn, *frag);
    let ghost start = *txn;
    let ghost mut place: int = 0;
    let mut index: u32 = 0;
    for node in it: nodes
        invariant
            it.seq() == all,
            all.len() <= u32::MAX,
            index == it.index(),
            trees == ydoc::xml_ins_tree(all),
            0 <= place <= was.len(),
            index == 0 ==> ydoc::fragment_nodes(*txn, *frag) == was,
            index > 0 ==> ydoc::fragment_nodes(*txn, *frag) == spread(
                was,
                trees.take(index as int),
                place,
            ),
            !ydoc::fragment_deleted(*txn, *frag),
            ydoc::map_kept(start, *txn, *frag),
    {
        let ghost i = it.index() as int;
        let ghost tree = ydoc::xml_in_tree(node);
        let ghost held = ydoc::fragment_nodes(*txn, *frag);
        let ghost before = *txn;
        assert(trees[i] == tree);
        ydoc::fragment_insert(txn, frag, index, node);
        proof {
            let k = choose|k: int|
                0 <= k <= held.len() && (index > 0 || held.len() == 0 ==> k == index)
                    && ydoc::fragment_nodes(*txn, *frag) == (#[trigger] held.insert(k, tree));
            if i == 0 {
                place = k;
                assert(held.insert(k, tree) =~= spread(was, trees.take(1), k));
            } else {
                let first = was.insert(place, trees[0]);
                assert(trees.take(i)[0] == trees[0]);
                assert(trees.take(i + 1)[0] == trees[0]);
                assert(held.insert(i, tree) =~= spread(was, trees.take(i + 1), place));
            }
            lemma_map_kept(start, before, *txn, *frag);
        }
        index = index + 1;
    }
    proof {
        assert(trees.take(all.len() as int) =~= trees);
        if all.len() > 0 && was.len() == 0 {
            assert(spread(was, trees, place) =~= trees);
        }
    }
}

/// What is kept by two steps is kept.
proof fn lemma_map_kept(
    a: TransactionMut<'_>,
    b: TransactionMut<'_>,
    c: TransactionMut<'_>,
    f: XmlFragmentRef,
)
    requires
        ydoc::map_kept(a, b, f),
        ydoc::map_kept(b, c, f),
    ensures
        ydoc::map_kept(a, c, f),
{
    assert forall|m: MapRef, key: Seq<char>| ydoc::fragment_at(a, m, key) == Some(f) implies
        #[trigger] ydoc::fragment_at(c, m, key) == Some(f) by {
        assert(ydoc::fragment_at(b, m, key) == Some(f));
    }
    assert forall|m: MapRef, key: Seq<char>, other: Seq<char>|
        #![trigger ydoc::fragment_at(a, m, key), ydoc::value_at(c, m, other)]
        ydoc::fragment_at(a, m, key) == Some(f) && other != key implies ydoc::value_at(c, m, other)
        == ydoc::value_at(a, m, other) by {
        assert(ydoc::fragment_at(b, m, key) == Some(f));
        assert(ydoc::value_at(b, m, other) == ydoc::value_at(a, m, other));
    }
    assert forall|m: MapRef, key: Seq<char>|
        #![trigger ydoc::fragment_at(a, m, key), ydoc::map_deleted(c, m)]
        ydoc::fragment_at(a, m, key) == Some(f) implies ydoc::map_deleted(c, m)
        == ydoc::map_deleted(a, m) by {
        assert(ydoc::fragment_at(b, m, key) == Some(f));
        assert(ydoc::map_deleted(b, m) == ydoc::map_deleted(a, m));
    }
}

/// Writes a description as rich text, parsing Markdown syntax.
///
/// The fragment under `description` is cleared and filled again, not replaced, so
/// that an editor that is bound to it stays bound. Where there is none, a new one
/// is put there.
pub fn write_description(
    txn: &mut TransactionMut<'_>,
    item_map: &MapRef,
    content: &str,
    resolver: Option<ItemResolver<'_>>,
) -> (r: Result<(), String>)
    requires
        content@.len() <= u32::MAX,
        !ydoc::map_deleted(*old(txn), *item_map),
    ensures
        r is Ok,
        ({
            let was = ydoc::fragment_at(*old(txn), *item_map, "description"@);
            let is = ydoc::fragment_at(*final(txn), *item_map, "description"@);
            &&& is is Some
            &&& was is Some ==> is == was
            &&& ydoc::fragment_nodes(*final(txn), is->0) == block::markdown_blocks(
                content@,
                content::resolver_view(resolver),
            )
        }),
        forall|key: Seq<char>|
            key != "description"@ ==> #[trigger] ydoc::value_at(*final(txn), *item_map, key)
                == ydoc::value_at(*old(txn), *item_map, key),
        !ydoc::map_deleted(*final(txn), *item_map),
{
    let frag = match ydoc::map_fragment(txn, item_map, "description") {
        Some(existing) => existing,
        None => ydoc::map_insert_fragment(txn, item_map, "description"),
    };
    let ghost found = *txn;
    let len: u32 = ydoc::fragment_len(txn, &frag);
    if len > 0 {
        ydoc::fragment_remove(txn, &frag, 0, len);
    }
    assert(ydoc::fragment_nodes(*txn, frag) =~= seq![]);
    let ghost cleared = *txn;
    write_markdown_to_fragment(txn, &frag, content, resolver);
    proof {
        lemma_map_kept(found, cleared, *txn, frag);
        assert(ydoc::fragment_at(found, *item_map, "description"@) == Some(frag));
    }
    Ok(())
}

/// Writes a description as rich text, and returns whether it did: an item that was
/// deleted is left as it is.
pub fn try_write_description(
    txn: &mut TransactionMut<'_>,
    item_map: &MapRef,
    content: &str,
    resolver: Option<ItemResolver<'_>>,
) -> (r: bool)
    requires
        content@.len() <= u32::MAX,
    ensures
        r == !ydoc::map_deleted(*old(txn), *item_map),
        r ==> ({
            let was = ydoc::fragment_at(*old(txn), *item_map, "description"@);
            let is = ydoc::fragment_at(*final(txn), *item_map, "description"@);
            &&& is is Some
            &&& was is Some ==> is == was
            &&& ydoc::fragment_nodes(*final(txn), is->0) == block::markdown_blocks(
                content@,
                content::resolver_view(resolver),
            )
        }),
        r ==> forall|key: Seq<char>|
            key != "description"@ ==> #[trigger] ydoc::value_at(*final(txn), *item_map, key)
                == ydoc::value_at(*old(txn), *item_map, key),
        r ==> !ydoc::map_deleted(*final(txn), *item_map),
        !r ==> *final(txn) == *old(txn),
{
    if ydoc::is_map_deleted(txn, item_map) {
        return false;
    }
    write_description(txn, item_map, content, resolver).is_ok()
}

/// The short id and the id of an item that has both.
pub open spec fn item_ids(txn: Transaction<'_>, item: MapRef) -> Option<(int, Seq<char>)> {
    match (ydoc::int_at(txn, item, "short_id"@), ydoc::str_at(txn, item, "id"@)) {
        (Some(n), Some(s)) => match codec::parsed_uuid(s) {
            Some(b) => Some((n, codec::hyphenated(b))),
            None => None,
        },
        _ => None,
    }
}

/// Whether `item` is an item of the map with the short id `n` and the id `id`.
pub open spec fn item_with(
    txn: Transaction<'_>,
    items_map: MapRef,
    item: MapRef,
    n: int,
    id: Seq<char>,
) -> bool {
    ydoc::child_maps(txn, items_map).contains(item) && item_ids(txn, item) == Some((n, id))
}

/// Reads the short id and the id of an item.
fn read_item_ids(txn: &Transaction<'_>, item: &MapRef) -> (r: Option<(i64, String)>)
    ensures
        match r {
            Some((n, id)) => item_ids(*txn, *item) == Some((n as int, id@)),
            None => item_ids(*txn, *item) is None,
        },
{
    let short_id = ydoc::map_int(txn, item, "short_id");
    let id = ydoc::map_str(txn, item, "id");
    match (short_id, id) {
        (Some(n), Some(s)) => match codec::parse_uuid(s.as_str()) {
            Some(b) => {
                let bytes = codec::sixteen(b.as_slice());
                Some((n, codec::uuid_text(&bytes)))
            },
            None => None,
        },
        _ => None,
    }
}

/// Builds the map from short ids to ids of the items of an items map. An item
/// without a short id or without a UUID is left out. Where two items have one
/// short id, it leads to one of them.
pub fn build_short_id_lookup(txn: &Transaction<'_>, items_map: &MapRef) -> (r: HashMap<i64, String>)
    ensures
        forall|n: i64| #[trigger]
            r@.contains_key(n) ==> exists|item: MapRef|
                item_with(*txn, *items_map, item, n as int, r@[n]@),
        forall|item: MapRef, n: i64, id: Seq<char>| #[trigger]
            item_with(*txn, *items_map, item, n as int, id) ==> r@.contains_key(n),
{
    broadcast use vstd::std_specs::hash::group_hash_axioms;

    let children = ydoc::map_children(txn, items_map);
    let ghost all = children@;
    let mut lookup: HashMap<i64, String> = HashMap::new();
    for child in it: children
        invariant
            it.seq() == all,
            forall|i: int|
                0 <= i < all.len() && (#[trigger] all[i]) is Some ==> ydoc::child_maps(
                    *txn,
                    *items_map,
                ).contains(all[i]->0),
            forall|n: i64| #[trigger]
                lookup@.contains_key(n) ==> exists|item: MapRef|
                    item_with(*txn, *items_map, item, n as int, lookup@[n]@),
            forall|i: int|
                0 <= i < it.index() && (#[trigger] all[i]) is Some && item_ids(*txn, all[i]->0)
                    is Some ==> lookup@.contains_key(
                    (item_ids(*txn, all[i]->0)->0).0 as i64,
                ),
    {
        assert(all[it.index() as int] == child);
        if let Some(item) = child {
            if let Some((n, id)) = read_item_ids(txn, &item) {
                let ghost before = lookup@;
                assert(item_with(*txn, *items_map, item, n as int, id@));
                lookup.insert(n, id);
                assert forall|k: i64| #[trigger]
                    lookup@.contains_key(k) implies exists|item: MapRef|
                    item_with(*txn, *items_map, item, k as int, lookup@[k]@) by {
                    if k != n {
                        assert(before.contains_key(k));
                        assert(lookup@[k] == before[k]);
                    } else {
                        assert(item_with(*txn, *items_map, item, k as int, lookup@[k]@));
                    }
                }
            }
        }
    }
    proof {
        assert forall|item: MapRef, n: i64, id: Seq<char>| #[trigger]
            item_with(*txn, *items_map, item, n as int, id) implies lookup@.contains_key(n) by {
            assert(all.contains(Some(item)));
            let i = choose|i: int| 0 <= i < all.len() && all[i] == Some(item);
            assert(all[i] is Some);
        }
    }
    lookup
}

} // verus!
