//! Rich-text blobs: base64 text of a Yjs update.

use vstd::prelude::*;
use yrs::types::xml::XmlIn;
use yrs::Doc;

use crate::codec;
use crate::rich_text::{self, MarkType, TextRun, XmlNode, XmlTree};
use crate::str_map::StrMap;
use crate::update_levels;
use crate::update_scan;
use crate::ydoc;
use crate::yrs_xml_copy;

verus! {

/// The length of a UUID text in bytes.
pub const UUID_LEN: usize = 36;

/// The bytes of a text in UTF-8.
pub open spec fn utf8(s: Seq<char>) -> Seq<u8> {
    vstd::utf8::encode_utf8(s)
}

/// Whether `id` stands in `b` at `pos`.
pub open spec fn id_at(b: Seq<u8>, id: Seq<u8>, pos: int) -> bool {
    b.subrange(pos, pos + UUID_LEN) == id
}

/// `b` with the bytes from `pos` on replaced by `id`.
pub open spec fn put_id(b: Seq<u8>, id: Seq<u8>, pos: int) -> Seq<u8> {
    b.take(pos) + id + b.skip(pos + UUID_LEN)
}

/// `b` with `new` in the place of each `old` from `pos` on, found from left to
/// right.
pub open spec fn replaced_from(b: Seq<u8>, old: Seq<u8>, new: Seq<u8>, pos: int) -> Seq<u8>
    decreases b.len() - pos,
{
    if pos < 0 || pos + UUID_LEN > b.len() || new.len() != UUID_LEN {
        b
    } else if id_at(b, old, pos) {
        replaced_from(put_id(b, new, pos), old, new, pos + UUID_LEN)
    } else {
        replaced_from(b, old, new, pos + 1)
    }
}

/// `b` after the replacements of the pairs, one pair after the other.
pub open spec fn remapped_blob(b: Seq<u8>, pairs: Seq<(String, String)>) -> Seq<u8>
    decreases pairs.len(),
{
    if pairs.len() == 0 {
        b
    } else {
        let (old, new) = pairs.last();
        replaced_from(remapped_blob(b, pairs.drop_last()), utf8(old@), utf8(new@), 0)
    }
}

/// Whether both texts of each pair have the length of a UUID.
pub open spec fn uuid_pairs(pairs: Seq<(String, String)>) -> bool {
    forall|i: int|
        0 <= i < pairs.len() ==> utf8((#[trigger] pairs[i]).0@).len() == UUID_LEN && utf8(
            pairs[i].1@,
        ).len() == UUID_LEN
}

fn matches_at(b: &Vec<u8>, id: &[u8], pos: usize) -> (r: bool)
    requires
        id@.len() == UUID_LEN,
        pos + UUID_LEN <= b@.len(),
    ensures
        r == id_at(b@, id@, pos as int),
{
    let n: usize = b.len();
    let mut i: usize = 0;
    while i < UUID_LEN
        invariant
            i <= UUID_LEN,
            id@.len() == UUID_LEN,
            n == b@.len(),
            pos + UUID_LEN <= n,
            forall|k: int| 0 <= k < i ==> b@[pos + k] == id@[k],
        decreases UUID_LEN - i,
    {
        if b[pos + i] != id[i] {
            assert(b@.subrange(pos as int, pos + UUID_LEN)[i as int] != id@[i as int]);
            return false;
        }
        i = i + 1;
    }
    assert(b@.subrange(pos as int, pos + UUID_LEN) =~= id@);
    true
}

fn write_at(b: &mut Vec<u8>, id: &[u8], pos: usize)
    requires
        id@.len() == UUID_LEN,
        pos + UUID_LEN <= old(b)@.len(),
    ensures
        final(b)@ == put_id(old(b)@, id@, pos as int),
{
    let ghost was = b@;
    let n: usize = b.len();
    let mut i: usize = 0;
    while i < UUID_LEN
        invariant
            i <= UUID_LEN,
            id@.len() == UUID_LEN,
            n == was.len(),
            pos + UUID_LEN <= n,
            b@.len() == n,
            forall|k: int| 0 <= k < i ==> b@[pos + k] == id@[k],
            forall|k: int|
                0 <= k < was.len() && !(pos <= k < pos + i) ==> #[trigger] b@[k] == was[k],
        decreases UUID_LEN - i,
    {
        b.set(pos + i, id[i]);
        i = i + 1;
    }
    assert(b@ =~= put_id(was, id@, pos as int)) by {
        assert forall|k: int| 0 <= k < was.len() implies b@[k] == put_id(was, id@, pos as int)[k] by {
            if pos <= k < pos + UUID_LEN {
                assert(b@[pos + (k - pos)] == id@[k - pos]);
            }
        }
    }
}

/// Replaces all occurrences of old UUIDs with new ones in raw bytes.
///
/// UUID texts are 36 bytes long, so a replacement keeps the length and does not
/// disturb the structure around it. The pairs are taken one after the other.
pub fn remap_uuids_in_blob(bytes: &mut Vec<u8>, uuid_map: &StrMap<String>)
    requires
        uuid_pairs(uuid_map.pairs()),
    ensures
        final(bytes)@ == remapped_blob(old(bytes)@, uuid_map.pairs()),
        final(bytes)@.len() == old(bytes)@.len(),
{
    let entries = uuid_map.entries();
    let ghost all = entries@;
    let ghost was = bytes@;
    let mut i: usize = 0;
    assert(all.take(0) =~= seq![]);
    while i < entries.len()
        invariant
            i <= entries@.len(),
            all == entries@,
            uuid_pairs(all),
            bytes@ == remapped_blob(was, all.take(i as int)),
            bytes@.len() == was.len(),
        decreases entries@.len() - i,
    {
        assert(all.take(i + 1).drop_last() =~= all.take(i as int));
        let old_id = entries[i].0.as_str().as_bytes();
        let new_id = entries[i].1.as_str().as_bytes();
        assert(utf8(all[i as int].0@).len() == UUID_LEN);
        let ghost start = bytes@;
        let n: usize = bytes.len();
        let mut pos: usize = 0;
        while n >= UUID_LEN && pos <= n - UUID_LEN
            invariant
                n == bytes@.len(),
                n == start.len(),
                pos <= n,
                old_id@.len() == UUID_LEN,
                new_id@.len() == UUID_LEN,
                replaced_from(start, old_id@, new_id@, 0) == replaced_from(
                    bytes@,
                    old_id@,
                    new_id@,
                    pos as int,
                ),
            decreases n - pos,
        {
            if matches_at(bytes, old_id, pos) {
                write_at(bytes, new_id, pos);
                pos = pos + UUID_LEN;
            } else {
                pos = pos + 1;
            }
        }
        i = i + 1;
    }
    assert(all.take(all.len() as int) =~= all);
}

/// A replacement keeps the length.
pub proof fn lemma_replaced_len(b: Seq<u8>, old: Seq<u8>, new: Seq<u8>, pos: int)
    ensures
        replaced_from(b, old, new, pos).len() == b.len(),
    decreases b.len() - pos,
{
    if pos < 0 || pos + UUID_LEN > b.len() || new.len() != UUID_LEN {
    } else if id_at(b, old, pos) {
        lemma_replaced_len(put_id(b, new, pos), old, new, pos + UUID_LEN);
    } else {
        lemma_replaced_len(b, old, new, pos + 1);
    }
}

/// Remapping a blob keeps its length, whatever the pairs are.
pub proof fn lemma_remapped_len(b: Seq<u8>, pairs: Seq<(String, String)>)
    ensures
        remapped_blob(b, pairs).len() == b.len(),
    decreases pairs.len(),
{
    if pairs.len() > 0 {
        lemma_remapped_len(b, pairs.drop_last());
        lemma_replaced_len(
            remapped_blob(b, pairs.drop_last()),
            utf8(pairs.last().0@),
            utf8(pairs.last().1@),
            0,
        );
    }
}

/// Whether `id` stands anywhere in `b`.
pub open spec fn occurs_in(b: Seq<u8>, id: Seq<u8>) -> bool {
    exists|pos: int| 0 <= pos && pos + UUID_LEN <= b.len() && #[trigger] id_at(b, id, pos)
}

proof fn lemma_replaced_untouched(b: Seq<u8>, old: Seq<u8>, new: Seq<u8>, pos: int)
    requires
        !occurs_in(b, old),
    ensures
        replaced_from(b, old, new, pos) == b,
    decreases b.len() - pos,
{
    if pos < 0 || pos + UUID_LEN > b.len() || new.len() != UUID_LEN {
    } else {
        assert(!id_at(b, old, pos));
        lemma_replaced_untouched(b, old, new, pos + 1);
    }
}

/// A blob in which none of the old UUIDs stands is left as it is.
pub proof fn lemma_remap_untouched(b: Seq<u8>, pairs: Seq<(String, String)>)
    requires
        forall|i: int| 0 <= i < pairs.len() ==> !occurs_in(b, utf8((#[trigger] pairs[i]).0@)),
    ensures
        remapped_blob(b, pairs) == b,
    decreases pairs.len(),
{
    if pairs.len() > 0 {
        assert(!occurs_in(b, utf8(pairs[pairs.len() - 1].0@)));
        lemma_remap_untouched(b, pairs.drop_last());
        lemma_replaced_untouched(b, utf8(pairs.last().0@), utf8(pairs.last().1@), 0);
    }
}

// ---------------------------------------------------------------------------
// Decoding
// ---------------------------------------------------------------------------

/// The bytes that a blob holds after the UUIDs are remapped, where they can be applied as
/// an update.
pub open spec fn blob_update(b64: Seq<char>, pairs: Seq<(String, String)>) -> Option<Seq<u8>> {
    match codec::base64_bytes(b64) {
        Some(b) => if update_scan::sound_update(remapped_blob(b, pairs)) {
            Some(remapped_blob(b, pairs))
        } else {
            None
        },
        None => None,
    }
}

/// Whether a deep copy may take the nodes from the fragment `key` in a blob; none where
/// the blob cannot be decoded or has no such fragment.
pub open spec fn blob_copied(
    b64: Seq<char>,
    key: Seq<char>,
    pairs: Seq<(String, String)>,
    nodes: Seq<XmlTree>,
) -> bool {
    match blob_update(b64, pairs) {
        None => nodes.len() == 0,
        Some(update) => match ydoc::update_fragment(update, key) {
            None => nodes.len() == 0,
            Some(v) => yrs_xml_copy::fragment_copied(v, 0, nodes, true)
                || yrs_xml_copy::fragment_copied(v, 0, nodes, false),
        },
    }
}

/// The nodes that were taken from a blob.
pub open spec fn blob_nodes(b64: Seq<char>, shown: Map<Seq<char>, Vec<XmlIn>>) -> Seq<XmlTree> {
    if shown.contains_key(b64) {
        ydoc::xml_ins_tree(shown[b64]@)
    } else {
        seq![]
    }
}

/// Whether each of the nodes were taken from their blob, from its fragment `content`.
pub open spec fn all_copied(
    shown: Map<Seq<char>, Vec<XmlIn>>,
    pairs: Seq<(String, String)>,
) -> bool {
    forall|b64: Seq<char>| #[trigger]
        shown.contains_key(b64) ==> blob_copied(b64, "content"@, pairs, blob_nodes(b64, shown))
}

/// Whether the nodes of a blob are there, where there is a blob.
pub open spec fn is_shown(b64: Option<String>, shown: Map<Seq<char>, Vec<XmlIn>>) -> bool {
    b64 is Some ==> shown.contains_key(b64->0@)
}

/// Whether what was there still is.
pub open spec fn keeps_shown(
    before: Map<Seq<char>, Vec<XmlIn>>,
    after: Map<Seq<char>, Vec<XmlIn>>,
) -> bool {
    forall|b64: Seq<char>| #[trigger] before.contains_key(b64) ==> after.contains_key(b64)
}

/// Whether there is a blob, and it is base64.
pub open spec fn decodes(b64: Option<String>) -> bool {
    b64 is Some && codec::base64_bytes(b64->0@) is Some
}

/// Whether there is a blob, and it is base64.
pub(crate) fn can_decode(b64: &Option<String>) -> (r: bool)
    ensures
        r == decodes(*b64),
{
    match b64 {
        Some(b) => codec::decode_base64(b.as_str()).is_some(),
        None => false,
    }
}

/// Whether a text has the length of a UUID.
pub(crate) fn has_uuid_len(s: &str) -> (r: bool)
    ensures
        r == (utf8(s@).len() == UUID_LEN),
{
    s.as_bytes().len() == UUID_LEN
}

/// Decodes a blob, remaps its UUIDs and loads it as a document. Gives nothing
/// where the text is not base64 or the bytes are no update that can be applied.
pub(crate) fn decode_base64_to_doc(b64: &str, uuid_map: &StrMap<String>) -> (r: Option<Doc>)
    requires
        codec::base64_bytes(b64@) is Some ==> uuid_pairs(uuid_map.pairs()),
    ensures
        match blob_update(b64@, uuid_map.pairs()) {
            None => r is None,
            Some(update) => {
                &&& r is Some <==> ydoc::is_update(update)
                &&& r is Some ==> forall|key: Seq<char>|
                    ydoc::fragment_under(ydoc::doc_roots(r->0), key)
                        == #[trigger] ydoc::update_fragment(update, key)
                &&& r is Some ==> ydoc::loaded_entries(r->0) == ydoc::update_entries(update)
                &&& r is Some ==> ydoc::loaded_items(r->0) == ydoc::update_items(update)
            },
        },
{
    match codec::decode_base64(b64) {
        None => None,
        Some(b) => {
            let mut bytes = b;
            remap_uuids_in_blob(&mut bytes, uuid_map);
            if update_scan::is_sound(bytes.as_slice()) {
                ydoc::load_update(bytes.as_slice())
            } else {
                None
            }
        },
    }
}

/// Decodes a blob, remaps its UUIDs and copies the nodes of the fragment `key`.
/// Gives no nodes where the blob cannot be decoded or has no such fragment.
pub(crate) fn decode_base64_to_xml_fragment(
    b64: &str,
    key: &str,
    uuid_map: &StrMap<String>,
) -> (r: Vec<XmlIn>)
    requires
        codec::base64_bytes(b64@) is Some ==> uuid_pairs(uuid_map.pairs()),
    ensures
        blob_copied(b64@, key@, uuid_map.pairs(), ydoc::xml_ins_tree(r@)),
{
    let mut nodes: Vec<XmlIn> = Vec::new();
    match codec::decode_base64(b64) {
        None => {},
        Some(b) => {
            let mut bytes = b;
            remap_uuids_in_blob(&mut bytes, uuid_map);
            if update_scan::is_sound(bytes.as_slice()) {
                match ydoc::load_update(bytes.as_slice()) {
                    None => {},
                    Some(doc) => {
                        let txn = ydoc::read_txn(&doc);
                        match ydoc::find_fragment(&txn, key) {
                            None => {},
                            Some(f) => {
                                let (copied, _) = yrs_xml_copy::copy_fragment_nodes(&txn, &f, 0);
                                nodes = copied;
                            },
                        }
                    },
                }
            }
        },
    }
    nodes
}

/// Takes the nodes from a blob, unless they have been taken from an equal one.
pub(crate) fn show_blob(
    b64: &Option<String>,
    uuid_map: &StrMap<String>,
    shown: &mut StrMap<Vec<XmlIn>>,
)
    requires
        decodes(*b64) ==> uuid_pairs(uuid_map.pairs()),
        all_copied(old(shown)@, uuid_map.pairs()),
    ensures
        all_copied(final(shown)@, uuid_map.pairs()),
        is_shown(*b64, final(shown)@),
        keeps_shown(old(shown)@, final(shown)@),
{
    if let Some(b) = b64 {
        if shown.get(b.as_str()).is_none() {
            let ghost before = shown@;
            let nodes = decode_base64_to_xml_fragment(b.as_str(), "content", uuid_map);
            shown.insert(b.clone(), nodes);
            assert forall|k: Seq<char>| #[trigger] shown@.contains_key(k) implies blob_copied(
                k,
                "content"@,
                uuid_map.pairs(),
                blob_nodes(k, shown@),
            ) by {
                if k != b@ {
                    assert(before.contains_key(k));
                    assert(blob_nodes(k, before) == blob_nodes(k, shown@));
                }
            }
        }
    }
}

/// The nodes that were taken from a blob.
pub(crate) fn nodes_of_blob(b64: &str, shown: &StrMap<Vec<XmlIn>>) -> (r: Vec<XmlIn>)
    ensures
        ydoc::xml_ins_tree(r@) == blob_nodes(b64@, shown@),
{
    match shown.get(b64) {
        Some(v) => ydoc::clone_nodes(v),
        None => {
            let none: Vec<XmlIn> = Vec::new();
            assert(ydoc::xml_ins_tree(none@) =~= seq![]);
            none
        },
    }
}

/// Whether a blob holds the nodes under `key`, before any remapping, and can be applied
/// where it is not too long and they are not too deep.
pub open spec fn blob_holds(b64: Seq<char>, key: Seq<char>, nodes: Seq<XmlTree>) -> bool {
    match codec::base64_bytes(b64) {
        Some(b) => {
            &&& ydoc::is_update(b)
            &&& b.len() <= update_scan::MAX_CLOCK && yrs_xml_copy::all_within(
                nodes,
                update_levels::MAX_NESTING as int,
            ) ==> update_scan::sound_update(b)
            &&& ydoc::nodes_or_none(ydoc::update_fragment(b, key)) == nodes
        },
        None => false,
    }
}

/// What is copied from a blob that holds shallow nodes is these nodes, where no UUID to
/// replace stands in it.
pub proof fn lemma_held_copied(
    b64: Seq<char>,
    key: Seq<char>,
    nodes: Seq<XmlTree>,
    pairs: Seq<(String, String)>,
    copied: Seq<XmlTree>,
)
    requires
        blob_holds(b64, key, nodes),
        codec::base64_bytes(b64)->0.len() <= update_scan::MAX_CLOCK,
        yrs_xml_copy::all_within(nodes, yrs_xml_copy::MAX_COPY_DEPTH as int),
        forall|i: int|
            0 <= i < pairs.len() ==> !occurs_in(
                codec::base64_bytes(b64)->0,
                utf8((#[trigger] pairs[i]).0@),
            ),
        blob_copied(b64, key, pairs, copied),
    ensures
        copied == nodes,
{
    let b = codec::base64_bytes(b64)->0;
    lemma_remap_untouched(b, pairs);
    yrs_xml_copy::lemma_within_more(
        nodes,
        yrs_xml_copy::MAX_COPY_DEPTH as int,
        update_levels::MAX_NESTING as int,
    );
    match ydoc::update_fragment(b, key) {
        None => {
            assert(copied =~= nodes);
        },
        Some(v) => {
            if yrs_xml_copy::fragment_copied(v, 0, copied, true) {
                yrs_xml_copy::lemma_copy_exact(v, 1, copied, true);
            } else {
                yrs_xml_copy::lemma_copy_exact(v, 1, copied, false);
            }
        },
    }
}

proof fn lemma_marks_kept(mark: Option<MarkType>)
    ensures
        forall|k: Seq<char>| #[trigger]
            rich_text::mark_attrs(mark).contains_key(k) ==> ydoc::keeps_mark(
                rich_text::mark_attrs(mark)[k],
            ),
{
    if let Some(MarkType::Link(href)) = mark {
        let m = Map::<Seq<char>, rich_text::AnyTree>::empty().insert(
            "href"@,
            rich_text::AnyTree::Str(href@),
        );
        assert(ydoc::keeps_mark(rich_text::AnyTree::Dict(m)));
        assert(rich_text::link_attrs(href@)["link"@] == rich_text::AnyTree::Dict(m));
    }
}

proof fn lemma_runs_kept(v: Seq<TextRun>)
    ensures
        ydoc::keeps_glyphs(rich_text::runs_glyphs(v)),
    decreases v.len(),
{
    if v.len() > 0 {
        lemma_runs_kept(v.drop_last());
        let before = rich_text::runs_glyphs(v.drop_last());
        let marks = rich_text::mark_attrs(v.last().mark);
        let all = rich_text::runs_glyphs(v);
        lemma_marks_kept(v.last().mark);
        assert forall|i: int, k: Seq<char>|
            0 <= i < all.len() && #[trigger] all[i].marks.contains_key(k) implies ydoc::keeps_mark(
            all[i].marks[k],
        ) by {
            if i < before.len() {
                assert(all[i] == before[i]);
                assert(before[i].marks.contains_key(k));
            } else {
                assert(all[i].marks == marks);
                assert(marks.contains_key(k));
            }
        }
    }
}

/// Nodes of elements and marked text come out of an update as they went in.
proof fn lemma_node_kept(n: XmlNode)
    ensures
        ydoc::keeps_node(rich_text::node_tree(n)),
    decreases n,
{
    match n {
        XmlNode::Element { tag, attrs, children } => {
            let tree = rich_text::node_tree(n);
            assert forall|i: int| 0 <= i < tree->children.len() implies ydoc::keeps_node(
                #[trigger] tree->children[i],
            ) by {
                lemma_node_kept(children@[i]);
            }
        },
        XmlNode::Text(runs) => {
            lemma_runs_kept(runs@);
        },
    }
}

/// Encodes nodes as a blob with one fragment `key`.
pub(crate) fn encode_nodes(key: &str, nodes: &Vec<XmlNode>) -> (r: String)
    ensures
        blob_holds(r@, key@, rich_text::nodes_tree(nodes@)),
{
    let mut doc = ydoc::new_doc();
    ydoc::add_fragment(&mut doc, key);
    let ghost all = rich_text::nodes_tree(nodes@);
    let mut i: usize = 0;
    assert(all.take(0) =~= seq![]);
    while i < nodes.len()
        invariant
            i <= nodes@.len(),
            all == rich_text::nodes_tree(nodes@),
            ydoc::doc_roots(doc) == ydoc::no_roots().insert(
                key@,
                ydoc::YTree::Fragment(all.take(i as int)),
            ),
            ydoc::keeps_roots(ydoc::doc_roots(doc)),
            ydoc::self_made(doc),
        decreases nodes@.len() - i,
    {
        assert(all.take(i + 1) =~= all.take(i as int).push(all[i as int]));
        proof {
            lemma_node_kept(nodes@[i as int]);
        }
        let node = ydoc::to_xml_in(&nodes[i]);
        ydoc::push_node(&mut doc, key, node);
        i = i + 1;
    }
    assert(all.take(all.len() as int) =~= all);
    let update = ydoc::encode_doc(&doc);
    codec::encode_base64(update.as_slice())
}

// ---------------------------------------------------------------------------
// What replacing does
// ---------------------------------------------------------------------------

/// What stands before the place where a replacement starts stays, and does not count.
proof fn lemma_replaced_behind(a: Seq<u8>, c: Seq<u8>, old: Seq<u8>, new: Seq<u8>, pos: int)
    requires
        0 <= pos,
    ensures
        replaced_from(a + c, old, new, a.len() + pos) == a + replaced_from(c, old, new, pos),
    decreases c.len() - pos,
{
    let b = a + c;
    let n = a.len() as int;
    if pos + UUID_LEN > c.len() || new.len() != UUID_LEN {
    } else {
        assert(b.subrange(n + pos, n + pos + UUID_LEN) =~= c.subrange(pos, pos + UUID_LEN));
        if id_at(c, old, pos) {
            assert(put_id(b, new, n + pos) =~= a + put_id(c, new, pos));
            lemma_replaced_behind(a, put_id(c, new, pos), old, new, pos + UUID_LEN);
        } else {
            lemma_replaced_behind(a, c, old, new, pos + 1);
        }
    }
}

proof fn lemma_replaced_skips(b: Seq<u8>, old: Seq<u8>, new: Seq<u8>, pos: int, k: int)
    requires
        0 <= pos <= k,
        k + UUID_LEN <= b.len(),
        new.len() == UUID_LEN,
        forall|j: int| pos <= j < k ==> !#[trigger] id_at(b, old, j),
    ensures
        replaced_from(b, old, new, pos) == replaced_from(b, old, new, k),
    decreases k - pos,
{
    if pos < k {
        assert(!id_at(b, old, pos));
        lemma_replaced_skips(b, old, new, pos + 1, k);
    }
}

/// Where an id first stands in a blob, the new one takes its place; what stands before it
/// stays, and what stands behind it is replaced in the same way.
pub proof fn lemma_replaced_first(pre: Seq<u8>, old: Seq<u8>, new: Seq<u8>, post: Seq<u8>)
    requires
        old.len() == 36,
        new.len() == 36,
        forall|j: int| 0 <= j < pre.len() ==> (#[trigger] (pre + old + post).subrange(j, j + 36))
            != old,
    ensures
        replaced_from(pre + old + post, old, new, 0) == pre + new + replaced_from(
            post,
            old,
            new,
            0,
        ),
{
    let b = pre + old + post;
    let k = pre.len() as int;
    assert forall|j: int| 0 <= j < k implies !#[trigger] id_at(b, old, j) by {
        assert(b.subrange(j, j + 36) != old);
    }
    lemma_replaced_skips(b, old, new, 0, k);
    assert(b.subrange(k, k + 36) =~= old);
    let done = pre + new;
    assert(put_id(b, new, k) =~= done + post);
    lemma_replaced_behind(done, post, old, new, 0);
}

/// An id that stands in a blob once is replaced by the new one of its pair, and nothing
/// else changes, where none of the other ids stands in the blob before or after.
pub proof fn lemma_remapped_once(
    pre: Seq<u8>,
    post: Seq<u8>,
    pairs: Seq<(String, String)>,
    k: int,
)
    requires
        uuid_pairs(pairs),
        0 <= k < pairs.len(),
        forall|j: int|
            0 <= j < pre.len() ==> (#[trigger] (pre + utf8(pairs[k].0@) + post).subrange(j, j + 36))
                != utf8(pairs[k].0@),
        !occurs_in(post, utf8(pairs[k].0@)),
        forall|i: int|
            0 <= i < pairs.len() && i != k ==> !occurs_in(
                pre + utf8(pairs[k].0@) + post,
                utf8((#[trigger] pairs[i]).0@),
            ) && !occurs_in(pre + utf8(pairs[k].1@) + post, utf8(pairs[i].0@)),
    ensures
        remapped_blob(pre + utf8(pairs[k].0@) + post, pairs) == pre + utf8(pairs[k].1@) + post,
    decreases pairs.len(),
{
    let w = pairs.drop_last();
    let last = pairs.len() - 1;
    let b = pre + utf8(pairs[k].0@) + post;
    if k < last {
        assert(w[k] == pairs[k]);
        assert forall|i: int| 0 <= i < w.len() && i != k implies !occurs_in(
            b,
            utf8((#[trigger] w[i]).0@),
        ) && !occurs_in(pre + utf8(w[k].1@) + post, utf8(w[i].0@)) by {
            assert(w[i] == pairs[i]);
        }
        lemma_remapped_once(pre, post, w, k);
        let done = pre + utf8(pairs[k].1@) + post;
        assert(!occurs_in(done, utf8(pairs[last].0@)));
        lemma_replaced_untouched(done, utf8(pairs[last].0@), utf8(pairs[last].1@), 0);
    } else {
        assert forall|i: int| 0 <= i < w.len() implies !occurs_in(
            b,
            utf8((#[trigger] w[i]).0@),
        ) by {
            assert(w[i] == pairs[i]);
        }
        lemma_remap_untouched(b, w);
        let (old, new) = (utf8(pairs[k].0@), utf8(pairs[k].1@));
        lemma_replaced_first(pre, old, new, post);
        lemma_replaced_untouched(post, old, new, 0);
    }
}

} // verus!
