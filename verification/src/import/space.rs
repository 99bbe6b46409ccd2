//! A space from an export.

use vstd::prelude::*;
use yrs::types::xml::XmlIn;
use yrs::{Doc, In};

use crate::calendar;
use crate::codec;
use crate::export::types::{ExportAttachment, ExportDocument, ExportItem, SpaceExport};
use crate::import::documents::{self, Anchors};
use crate::import::items::{self, Setting, Surroundings};
use crate::import::losses;
use crate::import::space_config;
use crate::rich_text::XmlTree;
use crate::str_map::{self, StrMap};
use crate::template::blob;
use crate::template::instantiator::{self, DocumentManifestEntry};
use crate::text;
use crate::ydoc;

verus! {

/// Users and teams of the target organization, by those of the export.
#[derive(Debug)]
pub struct ImportMaps {
    /// Old user UUID to a user UUID that is valid in the target organization.
    pub user_map: StrMap<String>,
    /// Old team UUID to a team UUID that is valid in the target organization.
    pub team_map: StrMap<String>,
}

impl Default for ImportMaps {
    fn default() -> (r: Self)
        ensures
            r.user_map@ == Map::<Seq<char>, String>::empty(),
            r.team_map@ == Map::<Seq<char>, String>::empty(),
    {
        ImportMaps { user_map: StrMap::new(), team_map: StrMap::new() }
    }
}

/// Result of building a space from an export.
pub struct ImportBuildResult {
    /// The space document: items that are not deep-archived, metadata of documents,
    /// configuration.
    pub space_doc: Doc,
    /// The deep-archived items and their comment threads, where there are any.
    pub archive_doc: Option<Doc>,
    /// The comment threads of the other items, where there are any.
    pub comments_doc: Option<Doc>,
    /// A document for the content of each document, by new document id.
    pub document_docs: Vec<(String, Doc)>,
    /// The documents with their new UUIDs.
    pub document_manifest: Vec<DocumentManifestEntry>,
    /// New attachment UUIDs by old ones, already put into the blobs.
    pub attachment_id_map: StrMap<String>,
    /// The highest imported short id.
    pub max_short_id: i64,
    /// Warnings for the import report.
    pub warnings: Vec<String>,
}

// ---------------------------------------------------------------------------
// New ids
// ---------------------------------------------------------------------------

/// Whether `ids` has a key for each document, and no other.
pub open spec fn doc_ids_for(v: Seq<ExportDocument>, ids: Map<Seq<char>, String>) -> bool {
    forall|k: Seq<char>| #[trigger]
        ids.contains_key(k) <==> exists|i: int| 0 <= i < v.len() && (#[trigger] v[i]).id@ == k
}

/// Whether `ids` has a key for each attachment, and no other.
pub open spec fn attachment_ids_for(v: Seq<ExportAttachment>, ids: Map<Seq<char>, String>) -> bool {
    forall|k: Seq<char>| #[trigger]
        ids.contains_key(k) <==> exists|i: int| 0 <= i < v.len() && (#[trigger] v[i]).id@ == k
}

fn new_doc_ids(v: &Vec<ExportDocument>) -> (r: StrMap<String>)
    ensures
        doc_ids_for(v@, r@),
        instantiator::random_values(r@),
{
    let mut ids: StrMap<String> = StrMap::new();
    let mut i: usize = 0;
    while i < v.len()
        invariant
            i <= v@.len(),
            forall|k: Seq<char>| #[trigger]
                ids@.contains_key(k) <==> exists|j: int| 0 <= j < i && (#[trigger] v@[j]).id@ == k,
            instantiator::random_values(ids@),
        decreases v@.len() - i,
    {
        let ghost before = ids@;
        ids.insert(v[i].id.clone(), codec::fresh_uuid());
        assert forall|k: Seq<char>| #[trigger] ids@.contains_key(k) <==> exists|j: int|
            0 <= j < i + 1 && (#[trigger] v@[j]).id@ == k by {
            assert(v@[i as int].id@ == v@[i as int].id@);
            if before.contains_key(k) {
                let j = choose|j: int| 0 <= j < i && (#[trigger] v@[j]).id@ == k;
                assert(v@[j].id@ == k);
            }
        }
        i = i + 1;
    }
    ids
}

fn new_attachment_ids(v: &Vec<ExportAttachment>) -> (r: StrMap<String>)
    ensures
        attachment_ids_for(v@, r@),
        instantiator::random_values(r@),
{
    let mut ids: StrMap<String> = StrMap::new();
    let mut i: usize = 0;
    while i < v.len()
        invariant
            i <= v@.len(),
            forall|k: Seq<char>| #[trigger]
                ids@.contains_key(k) <==> exists|j: int| 0 <= j < i && (#[trigger] v@[j]).id@ == k,
            instantiator::random_values(ids@),
        decreases v@.len() - i,
    {
        let ghost before = ids@;
        ids.insert(v[i].id.clone(), codec::fresh_uuid());
        assert forall|k: Seq<char>| #[trigger] ids@.contains_key(k) <==> exists|j: int|
            0 <= j < i + 1 && (#[trigger] v@[j]).id@ == k by {
            assert(v@[i as int].id@ == v@[i as int].id@);
            if before.contains_key(k) {
                let j = choose|j: int| 0 <= j < i && (#[trigger] v@[j]).id@ == k;
                assert(v@[j].id@ == k);
            }
        }
        i = i + 1;
    }
    ids
}

// ---------------------------------------------------------------------------
// UUIDs to replace
// ---------------------------------------------------------------------------

/// Whether `ids` replaces the UUID `k`. Other ids than UUIDs are never replaced, and
/// with `changed_only` neither are those that stay the same.
pub open spec fn enters(ids: Map<Seq<char>, String>, k: Seq<char>, changed_only: bool) -> bool {
    codec::is_hyphenated(k) && ids.contains_key(k) && (changed_only ==> ids[k]@ != k)
}

/// What stands for the UUID `k` in the blobs of the imported space: the mapped
/// user, the new space, the new attachment or the new document.
pub open spec fn new_uuid(
    k: Seq<char>,
    space: Seq<char>,
    new_space: Seq<char>,
    doc_ids: Map<Seq<char>, String>,
    attachment_ids: Map<Seq<char>, String>,
    users: Map<Seq<char>, String>,
) -> Option<Seq<char>> {
    if enters(users, k, true) {
        Some(users[k]@)
    } else if k == space && space != new_space && codec::is_hyphenated(space) {
        Some(new_space)
    } else if enters(attachment_ids, k, false) {
        Some(attachment_ids[k]@)
    } else if enters(doc_ids, k, false) {
        Some(doc_ids[k]@)
    } else {
        None
    }
}

/// Whether `map` replaces the UUIDs by the new ones, and nothing else.
pub open spec fn replaces(
    map: Map<Seq<char>, String>,
    space: Seq<char>,
    new_space: Seq<char>,
    doc_ids: Map<Seq<char>, String>,
    attachment_ids: Map<Seq<char>, String>,
    users: Map<Seq<char>, String>,
) -> bool {
    forall|k: Seq<char>|
        {
            let new = new_uuid(k, space, new_space, doc_ids, attachment_ids, users);
            &&& #[trigger] map.contains_key(k) <==> new is Some
            &&& map.contains_key(k) ==> new == Some(map[k]@)
        }
}

/// Whether each pair has a UUID to replace and a text of the same length.
pub open spec fn pair_ok(p: (String, String)) -> bool {
    blob::utf8(p.0@).len() == blob::UUID_LEN && blob::utf8(p.1@).len() == blob::UUID_LEN
}

/// Whether the texts that replace UUIDs have their length.
pub open spec fn new_ids_ok(ids: Map<Seq<char>, String>, changed_only: bool) -> bool {
    forall|k: Seq<char>| #[trigger]
        ids.contains_key(k) && enters(ids, k, changed_only) ==> blob::utf8(ids[k]@).len()
            == blob::UUID_LEN
}

/// What becomes of the key `k` of a map, once the listed UUIDs that `ids` replaces
/// are added.
spec fn added(
    map: Map<Seq<char>, String>,
    was: Map<Seq<char>, String>,
    ids: Map<Seq<char>, String>,
    listed: Seq<(String, String)>,
    changed_only: bool,
    k: Seq<char>,
) -> bool {
    let seen = str_map::has_key(listed, k) && enters(ids, k, changed_only);
    &&& map.contains_key(k) <==> was.contains_key(k) || seen
    &&& seen ==> map[k] == ids[k]
    &&& !seen && was.contains_key(k) ==> map[k] == was[k]
}

proof fn lemma_take_key(v: Seq<(String, String)>, i: int, k: Seq<char>)
    requires
        0 <= i < v.len(),
    ensures
        str_map::has_key(v.take(i + 1), k) <==> str_map::has_key(v.take(i), k) || k == v[i].0@,
{
    let a = v.take(i);
    let b = v.take(i + 1);
    if str_map::has_key(b, k) {
        let j = choose|j: int| str_map::key_at(b, k, j);
        if j < i {
            assert(str_map::key_at(a, k, j));
        }
    }
    if str_map::has_key(a, k) {
        let j = choose|j: int| str_map::key_at(a, k, j);
        assert(str_map::key_at(b, k, j));
    }
    if k == v[i].0@ {
        assert(str_map::key_at(b, k, i));
    }
}

/// Adds the UUIDs that `ids` replaces.
fn add_uuids(map: &mut StrMap<String>, ids: &StrMap<String>, changed_only: bool)
    ensures
        forall|k: Seq<char>| #[trigger]
            final(map)@.contains_key(k) <==> old(map)@.contains_key(k) || enters(
                ids@,
                k,
                changed_only,
            ),
        forall|k: Seq<char>| #[trigger]
            enters(ids@, k, changed_only) ==> final(map)@[k] == ids@[k],
        forall|k: Seq<char>| #[trigger]
            old(map)@.contains_key(k) && !enters(ids@, k, changed_only) ==> final(map)@[k]
                == old(map)@[k],
        blob::uuid_pairs(old(map).pairs()) && new_ids_ok(ids@, changed_only) ==> blob::uuid_pairs(
            final(map).pairs(),
        ),
{
    let entries = ids.entries();
    let ghost all = entries@;
    let ghost was = map@;
    let ghost ok = blob::uuid_pairs(map.pairs()) && new_ids_ok(ids@, changed_only);
    let mut i: usize = 0;
    proof {
        assert forall|k: Seq<char>| #[trigger] added(
            map@,
            was,
            ids@,
            all.take(0),
            changed_only,
            k,
        ) by {
            assert(!str_map::has_key(all.take(0), k));
        }
    }
    while i < entries.len()
        invariant
            i <= all.len(),
            all == entries@,
            forall|j: int|
                0 <= j < all.len() ==> ids@.contains_key((#[trigger] all[j]).0@) && ids@[all[j].0@]
                    == all[j].1,
            forall|k: Seq<char>| #[trigger]
                added(map@, was, ids@, all.take(i as int), changed_only, k),
            ok ==> new_ids_ok(ids@, changed_only),
            ok ==> blob::uuid_pairs(map.pairs()),
        decreases all.len() - i,
    {
        let ghost before = map@;
        let ghost had = map.pairs();
        let (old_id, new_id) = &entries[i];
        let enters_now = codec::has_uuid_form(old_id.as_str()) && (!changed_only || !text::str_eq(
            old_id.as_str(),
            new_id.as_str(),
        ));
        assert(ids@.contains_key(all[i as int].0@));
        assert(enters_now == enters(ids@, old_id@, changed_only));
        if enters_now {
            map.insert(old_id.clone(), new_id.clone());
            proof {
                if ok {
                    codec::lemma_uuid_len(old_id@);
                    assert forall|j: int| 0 <= j < map.pairs().len() implies blob::utf8(
                        (#[trigger] map.pairs()[j]).0@,
                    ).len() == blob::UUID_LEN && blob::utf8(map.pairs()[j].1@).len()
                        == blob::UUID_LEN by {
                        if had.contains(map.pairs()[j]) {
                            let l = choose|l: int| 0 <= l < had.len() && had[l] == map.pairs()[j];
                            assert(pair_ok(had[l]));
                        }
                    }
                }
            }
        }
        proof {
            assert forall|k: Seq<char>| #[trigger] added(
                map@,
                was,
                ids@,
                all.take(i + 1),
                changed_only,
                k,
            ) by {
                lemma_take_key(all, i as int, k);
                assert(added(before, was, ids@, all.take(i as int), changed_only, k));
            }
        }
        i = i + 1;
    }
    proof {
        assert(all.take(all.len() as int) =~= all);
        assert forall|k: Seq<char>| added(map@, was, ids@, all, changed_only, k) && (enters(
            ids@,
            k,
            changed_only,
        ) ==> str_map::has_key(all, k)) by {
            assert(ids@.contains_key(k) ==> str_map::has_key(all, k));
        }
        assert forall|k: Seq<char>| #[trigger] map@.contains_key(k) <==> was.contains_key(k)
            || enters(ids@, k, changed_only) by {
            assert(added(map@, was, ids@, all, changed_only, k));
        }
        assert forall|k: Seq<char>| #[trigger] enters(ids@, k, changed_only) implies map@[k]
            == ids@[k] by {
            assert(added(map@, was, ids@, all, changed_only, k));
        }
        assert forall|k: Seq<char>| #[trigger] was.contains_key(k) && !enters(
            ids@,
            k,
            changed_only,
        ) implies map@[k] == was[k] by {
            assert(added(map@, was, ids@, all, changed_only, k));
        }
    }
}

/// Whether there is a blob to remap: one that is base64.
pub open spec fn has_blobs(e: SpaceExport) -> bool {
    ||| blob::decodes(e.overview_yjs)
    ||| exists|i: int| 0 <= i < e.items@.len() && item_has_blobs(#[trigger] e.items@[i])
    ||| exists|i: int|
        0 <= i < e.documents@.len() && blob::decodes((#[trigger] e.documents@[i]).content_yjs)
}

/// Whether an item or one of its comments has a blob to remap.
pub open spec fn item_has_blobs(i: ExportItem) -> bool {
    ||| blob::decodes(i.description_yjs)
    ||| blob::decodes(i.completion_note_yjs)
    ||| exists|j: int|
        0 <= j < i.comments@.len() && blob::decodes((#[trigger] i.comments@[j]).content_yjs)
}

fn any_item_blob(i: &ExportItem) -> (r: bool)
    ensures
        r == item_has_blobs(*i),
{
    if blob::can_decode(&i.description_yjs) || blob::can_decode(&i.completion_note_yjs) {
        return true;
    }
    let mut j: usize = 0;
    while j < i.comments.len()
        invariant
            j <= i.comments@.len(),
            forall|k: int|
                0 <= k < j ==> !blob::decodes((#[trigger] i.comments@[k]).content_yjs),
        decreases i.comments@.len() - j,
    {
        if blob::can_decode(&i.comments[j].content_yjs) {
            return true;
        }
        j = j + 1;
    }
    false
}

fn any_blob(e: &SpaceExport) -> (r: bool)
    ensures
        r == has_blobs(*e),
{
    if blob::can_decode(&e.overview_yjs) {
        return true;
    }
    let mut i: usize = 0;
    while i < e.items.len()
        invariant
            i <= e.items@.len(),
            forall|k: int| 0 <= k < i ==> !item_has_blobs(#[trigger] e.items@[k]),
        decreases e.items@.len() - i,
    {
        if any_item_blob(&e.items[i]) {
            return true;
        }
        i = i + 1;
    }
    let mut i: usize = 0;
    while i < e.documents.len()
        invariant
            i <= e.documents@.len(),
            forall|k: int| 0 <= k < e.items@.len() ==> !item_has_blobs(#[trigger] e.items@[k]),
            !blob::decodes(e.overview_yjs),
            forall|k: int|
                0 <= k < i ==> !blob::decodes((#[trigger] e.documents@[k]).content_yjs),
        decreases e.documents@.len() - i,
    {
        if blob::can_decode(&e.documents[i].content_yjs) {
            return true;
        }
        i = i + 1;
    }
    false
}

/// Whether the nodes of the blobs of an item and its comments are there.
pub open spec fn item_shown(i: ExportItem, shown: Map<Seq<char>, Vec<XmlIn>>) -> bool {
    &&& blob::is_shown(i.description_yjs, shown)
    &&& blob::is_shown(i.completion_note_yjs, shown)
    &&& forall|j: int|
        0 <= j < i.comments@.len() ==> blob::is_shown(
            (#[trigger] i.comments@[j]).content_yjs,
            shown,
        )
}

/// Whether `shown` holds what was taken from the blobs of an export, but for its
/// documents.
pub open spec fn blobs_shown(
    e: SpaceExport,
    pairs: Seq<(String, String)>,
    shown: Map<Seq<char>, Vec<XmlIn>>,
) -> bool {
    &&& blob::all_copied(shown, pairs)
    &&& blob::is_shown(e.overview_yjs, shown)
    &&& forall|i: int| 0 <= i < e.items@.len() ==> item_shown(#[trigger] e.items@[i], shown)
}

fn show_item(i: &ExportItem, uuid_map: &StrMap<String>, shown: &mut StrMap<Vec<XmlIn>>)
    requires
        item_has_blobs(*i) ==> blob::uuid_pairs(uuid_map.pairs()),
        blob::all_copied(old(shown)@, uuid_map.pairs()),
    ensures
        blob::all_copied(final(shown)@, uuid_map.pairs()),
        item_shown(*i, final(shown)@),
        blob::keeps_shown(old(shown)@, final(shown)@),
{
    let ghost before = shown@;
    blob::show_blob(&i.description_yjs, uuid_map, shown);
    blob::show_blob(&i.completion_note_yjs, uuid_map, shown);
    let mut j: usize = 0;
    while j < i.comments.len()
        invariant
            j <= i.comments@.len(),
            item_has_blobs(*i) ==> blob::uuid_pairs(uuid_map.pairs()),
            blob::all_copied(shown@, uuid_map.pairs()),
            blob::keeps_shown(before, shown@),
            blob::is_shown(i.description_yjs, shown@),
            blob::is_shown(i.completion_note_yjs, shown@),
            forall|k: int|
                0 <= k < j ==> blob::is_shown((#[trigger] i.comments@[k]).content_yjs, shown@),
        decreases i.comments@.len() - j,
    {
        assert(blob::decodes(i.comments@[j as int].content_yjs) ==> item_has_blobs(*i));
        blob::show_blob(&i.comments[j].content_yjs, uuid_map, shown);
        j = j + 1;
    }
}

/// Takes the nodes from the blobs of an export, but for its documents.
fn show_blobs(e: &SpaceExport, uuid_map: &StrMap<String>) -> (r: StrMap<Vec<XmlIn>>)
    requires
        has_blobs(*e) ==> blob::uuid_pairs(uuid_map.pairs()),
    ensures
        blobs_shown(*e, uuid_map.pairs(), r@),
{
    let mut shown: StrMap<Vec<XmlIn>> = StrMap::new();
    blob::show_blob(&e.overview_yjs, uuid_map, &mut shown);
    let mut i: usize = 0;
    while i < e.items.len()
        invariant
            i <= e.items@.len(),
            has_blobs(*e) ==> blob::uuid_pairs(uuid_map.pairs()),
            blob::all_copied(shown@, uuid_map.pairs()),
            blob::is_shown(e.overview_yjs, shown@),
            forall|k: int| 0 <= k < i ==> item_shown(#[trigger] e.items@[k], shown@),
        decreases e.items@.len() - i,
    {
        let ghost before = shown@;
        assert(item_has_blobs(e.items@[i as int]) ==> has_blobs(*e));
        show_item(&e.items[i], uuid_map, &mut shown);
        assert forall|k: int| 0 <= k < i implies item_shown(#[trigger] e.items@[k], shown@) by {
            assert(item_shown(e.items@[k], before));
        }
        i = i + 1;
    }
    shown
}

/// Whether the ids that go into blobs have the length of a UUID.
pub open spec fn ids_ok(e: SpaceExport, new_space: Seq<char>, users: Map<Seq<char>, String>) -> bool {
    &&& new_ids_ok(users, true)
    &&& e.space.id@ != new_space && codec::is_hyphenated(e.space.id@) ==> blob::utf8(
        new_space,
    ).len() == blob::UUID_LEN
}

fn users_fit(users: &StrMap<String>) -> (r: bool)
    ensures
        r == new_ids_ok(users@, true),
{
    let entries = users.entries();
    let ghost all = entries@;
    let mut i: usize = 0;
    while i < entries.len()
        invariant
            i <= all.len(),
            all == entries@,
            forall|j: int|
                0 <= j < all.len() ==> users@.contains_key((#[trigger] all[j]).0@)
                    && users@[all[j].0@] == all[j].1,
            forall|j: int|
                0 <= j < i && enters(users@, (#[trigger] all[j]).0@, true) ==> blob::utf8(
                    all[j].1@,
                ).len() == blob::UUID_LEN,
        decreases all.len() - i,
    {
        let (old_id, new_id) = &entries[i];
        assert(users@.contains_key(all[i as int].0@));
        if codec::has_uuid_form(old_id.as_str()) && !text::str_eq(
            old_id.as_str(),
            new_id.as_str(),
        ) && !blob::has_uuid_len(new_id.as_str()) {
            assert(enters(users@, old_id@, true));
            return false;
        }
        i = i + 1;
    }
    proof {
        assert forall|k: Seq<char>| #[trigger] users@.contains_key(k) && enters(
            users@,
            k,
            true,
        ) implies blob::utf8(users@[k]@).len() == blob::UUID_LEN by {
            assert(str_map::has_key(all, k));
            let j = choose|j: int| str_map::key_at(all, k, j);
            assert(all[j].0@ == k);
        }
    }
    true
}

fn ids_fit(e: &SpaceExport, new_space: &str, users: &StrMap<String>) -> (r: bool)
    ensures
        r == ids_ok(*e, new_space@, users@),
{
    let space = e.space.id.as_str();
    users_fit(users) && (text::str_eq(space, new_space) || !codec::has_uuid_form(space)
        || blob::has_uuid_len(new_space))
}

proof fn lemma_new_ids(ids: Map<Seq<char>, String>)
    requires
        instantiator::uuid_values(ids),
    ensures
        new_ids_ok(ids, false),
{
    assert forall|k: Seq<char>| #[trigger] ids.contains_key(k) && enters(ids, k, false) implies
        blob::utf8(ids[k]@).len() == blob::UUID_LEN by {
        codec::lemma_uuid_len(ids[k]@);
    }
}

/// The UUIDs to replace in blobs. Only well-formed UUIDs enter it: a made-up id can
/// not stand in rich text.
fn blob_uuid_map(
    space: &str,
    new_space: &str,
    doc_ids: &StrMap<String>,
    attachment_ids: &StrMap<String>,
    users: &StrMap<String>,
) -> (r: StrMap<String>)
    requires
        instantiator::uuid_values(doc_ids@),
        instantiator::uuid_values(attachment_ids@),
    ensures
        replaces(r@, space@, new_space@, doc_ids@, attachment_ids@, users@),
        new_ids_ok(users@, true) && (space@ != new_space@ && codec::is_hyphenated(space@)
            ==> blob::utf8(new_space@).len() == blob::UUID_LEN) ==> blob::uuid_pairs(r.pairs()),
{
    proof {
        lemma_new_ids(doc_ids@);
        lemma_new_ids(attachment_ids@);
    }
    let mut map: StrMap<String> = StrMap::new();
    let ghost m0 = map@;
    add_uuids(&mut map, doc_ids, false);
    let ghost m1 = map@;
    add_uuids(&mut map, attachment_ids, false);
    let ghost m2 = map@;
    let ghost had = map.pairs();
    if !text::str_eq(space, new_space) && codec::has_uuid_form(space) {
        map.insert(space.to_owned(), new_space.to_owned());
        proof {
            if blob::utf8(new_space@).len() == blob::UUID_LEN {
                codec::lemma_uuid_len(space@);
                assert forall|j: int| 0 <= j < map.pairs().len() implies blob::utf8(
                    (#[trigger] map.pairs()[j]).0@,
                ).len() == blob::UUID_LEN && blob::utf8(map.pairs()[j].1@).len()
                    == blob::UUID_LEN by {
                    if had.contains(map.pairs()[j]) {
                        let l = choose|l: int| 0 <= l < had.len() && had[l] == map.pairs()[j];
                        assert(pair_ok(had[l]));
                    }
                }
            }
        }
    }
    let ghost m3 = map@;
    add_uuids(&mut map, users, true);
    proof {
        assert forall|k: Seq<char>|
            {
                let new = new_uuid(k, space@, new_space@, doc_ids@, attachment_ids@, users@);
                &&& #[trigger] map@.contains_key(k) <==> new is Some
                &&& map@.contains_key(k) ==> new == Some(map@[k]@)
            } by {
            assert(m1.contains_key(k) <==> m0.contains_key(k) || enters(doc_ids@, k, false));
            assert(m2.contains_key(k) <==> m1.contains_key(k) || enters(attachment_ids@, k, false));
            assert(m3.contains_key(k) || !m3.contains_key(k));
        }
    }
    map
}

// ---------------------------------------------------------------------------
// Short ids
// ---------------------------------------------------------------------------

/// The greatest short id, if any item has one.
pub open spec fn greatest_short_id(v: Seq<ExportItem>) -> Option<i64>
    decreases v.len(),
{
    if v.len() == 0 {
        None
    } else {
        match (greatest_short_id(v.drop_last()), v.last().short_id) {
            (Some(a), Some(b)) => Some(
                if a <= b {
                    b
                } else {
                    a
                },
            ),
            (Some(a), None) => Some(a),
            (None, b) => b,
        }
    }
}

/// The greatest short id, or zero where no item has one.
pub open spec fn max_short_id_of(v: Seq<ExportItem>) -> i64 {
    match greatest_short_id(v) {
        Some(n) => n,
        None => 0,
    }
}

fn max_short_id(v: &Vec<ExportItem>) -> (r: i64)
    ensures
        r == max_short_id_of(v@),
{
    let mut best: Option<i64> = None;
    let mut i: usize = 0;
    assert(v@.take(0) =~= seq![]);
    while i < v.len()
        invariant
            i <= v@.len(),
            best == greatest_short_id(v@.take(i as int)),
        decreases v@.len() - i,
    {
        assert(v@.take(i + 1).drop_last() =~= v@.take(i as int));
        if let Some(n) = v[i].short_id {
            best = match best {
                Some(b) => if b <= n {
                    Some(n)
                } else {
                    Some(b)
                },
                None => Some(n),
            };
        }
        i = i + 1;
    }
    assert(v@.take(v@.len() as int) =~= v@);
    match best {
        Some(n) => n,
        None => 0,
    }
}

/// No imported item has a short id above the maximum, so numbering can go on past
/// it.
pub proof fn lemma_max_short_id(v: Seq<ExportItem>, i: int)
    requires
        0 <= i < v.len(),
        v[i].short_id is Some,
    ensures
        greatest_short_id(v) is Some,
        v[i].short_id->0 <= max_short_id_of(v),
    decreases v.len(),
{
    if i < v.len() - 1 {
        assert(v.drop_last()[i] == v[i]);
        lemma_max_short_id(v.drop_last(), i);
    }
}

// ---------------------------------------------------------------------------
// The documents of the space
// ---------------------------------------------------------------------------

/// Whether any item is deep-archived.
pub open spec fn any_deep(v: Seq<ExportItem>) -> bool {
    exists|i: int| 0 <= i < v.len() && (#[trigger] v[i]).deep_archived
}

/// Whether any item that is not deep-archived has comments.
pub open spec fn any_thread(v: Seq<ExportItem>) -> bool {
    exists|i: int| 0 <= i < v.len() && items::has_thread(#[trigger] v[i], false)
}

fn is_any_deep(v: &Vec<ExportItem>) -> (r: bool)
    ensures
        r == any_deep(v@),
{
    let mut i: usize = 0;
    while i < v.len()
        invariant
            i <= v@.len(),
            forall|k: int| 0 <= k < i ==> !(#[trigger] v@[k]).deep_archived,
        decreases v@.len() - i,
    {
        if v[i].deep_archived {
            assert(v@[i as int].deep_archived);
            return true;
        }
        i = i + 1;
    }
    false
}

fn is_any_thread(v: &Vec<ExportItem>) -> (r: bool)
    ensures
        r == any_thread(v@),
{
    let mut i: usize = 0;
    while i < v.len()
        invariant
            i <= v@.len(),
            forall|k: int| 0 <= k < i ==> !items::has_thread(#[trigger] v@[k], false),
        decreases v@.len() - i,
    {
        if !v[i].deep_archived && v[i].comments.len() > 0 {
            assert(items::has_thread(v@[i as int], false));
            return true;
        }
        i = i + 1;
    }
    false
}

/// The overview of the space, where the export has one.
pub open spec fn overview_of(e: SpaceExport, shown: Map<Seq<char>, Vec<XmlIn>>) -> Option<
    Seq<XmlTree>,
> {
    match e.overview_yjs {
        Some(b) => Some(blob::blob_nodes(b@, shown)),
        None => None,
    }
}

/// What the space document of an imported space holds.
pub open spec fn space_doc_is(
    e: SpaceExport,
    maps: ImportMaps,
    s: Setting,
    doc_ids: Map<Seq<char>, String>,
    doc: Doc,
) -> bool {
    let roots = ydoc::doc_roots(doc);
    let a = Anchors { doc_ids, items: e.items@, milestones: e.milestones.definitions@ };
    &&& ydoc::dict_under(roots, "config"@) == space_config::config_tree(
        e,
        &maps.user_map,
        &maps.team_map,
        s.now,
    )
    &&& ydoc::dict_under(roots, "items"@) == items::items_tree(e.items@, false, s)
    &&& ydoc::list_under(roots, "items_order"@) == items::item_ids(e.items@, false)
    &&& ydoc::dict_under(roots, "documents"@) == documents::documents_tree(e.documents@, s, a)
    &&& ydoc::list_under(roots, "documents_order"@) == documents::document_ids(
        e.documents@,
        doc_ids,
    )
    &&& ydoc::fragment_under(roots, "description"@) == overview_of(e, s.shown)
}

/// What the archive document of an imported space holds.
pub open spec fn archive_doc_is(v: Seq<ExportItem>, s: Setting, doc: Doc) -> bool {
    let roots = ydoc::doc_roots(doc);
    &&& ydoc::dict_under(roots, "items"@) == items::items_tree(v, true, s)
    &&& ydoc::list_under(roots, "items_order"@) == items::item_ids(v, true)
    &&& ydoc::dict_under(roots, "threads"@) == items::threads_tree(v, true, s)
    &&& ydoc::dict_under(roots, "threads_order"@) == items::threads_order(v, true)
}

/// What the comments document of an imported space holds.
pub open spec fn comments_doc_is(v: Seq<ExportItem>, s: Setting, doc: Doc) -> bool {
    let roots = ydoc::doc_roots(doc);
    &&& ydoc::dict_under(roots, "threads"@) == items::threads_tree(v, false, s)
    &&& ydoc::dict_under(roots, "threads_order"@) == items::threads_order(v, false)
}

/// Whether the warnings are those of the losses.
pub open spec fn warnings_are(e: SpaceExport, maps: ImportMaps, w: Seq<String>) -> bool {
    exists|c: losses::ImportCounters| #[trigger]
        losses::counters_are(c, e, maps.user_map@, maps.team_map@) && text::texts(w)
            == losses::warnings_of(c)
}

/// What an import gives, for given new ids, a given time and what was taken from the
/// blobs.
pub open spec fn imported(
    e: SpaceExport,
    maps: ImportMaps,
    s: Setting,
    pairs: Seq<(String, String)>,
    doc_ids: Map<Seq<char>, String>,
    attachment_ids: Map<Seq<char>, String>,
    r: ImportBuildResult,
) -> bool {
    &&& blobs_shown(e, pairs, s.shown)
    &&& space_doc_is(e, maps, s, doc_ids, r.space_doc)
    &&& r.archive_doc is Some <==> any_deep(e.items@)
    &&& r.archive_doc matches Some(doc) ==> archive_doc_is(e.items@, s, doc)
    &&& r.comments_doc is Some <==> any_thread(e.items@)
    &&& r.comments_doc matches Some(doc) ==> comments_doc_is(e.items@, s, doc)
    &&& documents::documents_loaded(e.documents@, doc_ids, pairs, r.document_docs@)
    &&& instantiator::manifest_view(r.document_manifest@) == documents::manifest_of(
        e.documents@,
        doc_ids,
    )
    &&& r.attachment_id_map@ == attachment_ids
    &&& r.max_short_id == max_short_id_of(e.items@)
    &&& warnings_are(e, maps, r.warnings@)
}

/// The setting of an import.
pub open spec fn setting(
    importer: Seq<char>,
    maps: ImportMaps,
    now: Seq<char>,
    now_ms: int,
    shown: Map<Seq<char>, Vec<XmlIn>>,
) -> Setting {
    Setting { importer, now, now_ms, shown, users: maps.user_map@, teams: maps.team_map@ }
}

proof fn lemma_thread_names()
    ensures
        "threads"@ != "threads_order"@,
        "threads"@ != "items"@,
        "threads"@ != "items_order"@,
        "threads_order"@ != "items"@,
        "threads_order"@ != "items_order"@,
{
    reveal_strlit("threads");
    reveal_strlit("threads_order");
    reveal_strlit("items");
    reveal_strlit("items_order");
    assert("threads"@.len() == 7);
    assert("threads_order"@.len() == 13);
    assert("items"@.len() == 5);
    assert("items_order"@.len() == 11);
}

fn fill_archive_doc(
    items: (Vec<(String, In)>, Vec<In>),
    threads: (Vec<(String, In)>, Vec<(String, In)>),
) -> (r: Doc)
    ensures
        ({
            let roots = ydoc::doc_roots(r);
            &&& ydoc::dict_under(roots, "items"@) == ydoc::entries_tree(items.0@)
            &&& ydoc::list_under(roots, "items_order"@) == ydoc::ins_tree(items.1@)
            &&& ydoc::dict_under(roots, "threads"@) == ydoc::entries_tree(threads.0@)
            &&& ydoc::dict_under(roots, "threads_order"@) == ydoc::entries_tree(threads.1@)
        }),
{
    proof {
        instantiator::lemma_root_names();
        lemma_thread_names();
        assert(items.1@.len() == 0 ==> ydoc::ins_tree(items.1@) =~= seq![]);
    }
    let mut doc = ydoc::new_doc();
    ydoc::put_entries(&mut doc, "items", items.0);
    ydoc::push_items(&mut doc, "items_order", items.1);
    ydoc::put_entries(&mut doc, "threads", threads.0);
    ydoc::put_entries(&mut doc, "threads_order", threads.1);
    doc
}

fn fill_comments_doc(threads: (Vec<(String, In)>, Vec<(String, In)>)) -> (r: Doc)
    ensures
        ydoc::dict_under(ydoc::doc_roots(r), "threads"@) == ydoc::entries_tree(threads.0@),
        ydoc::dict_under(ydoc::doc_roots(r), "threads_order"@) == ydoc::entries_tree(threads.1@),
{
    proof {
        lemma_thread_names();
    }
    let mut doc = ydoc::new_doc();
    ydoc::put_entries(&mut doc, "threads", threads.0);
    ydoc::put_entries(&mut doc, "threads_order", threads.1);
    doc
}

/// Builds all documents for a new space from an export, with given new ids for its
/// documents and attachments, at a given time.
pub fn build_space_with(
    export: &SpaceExport,
    new_space_id: &str,
    importer_id: &str,
    maps: &ImportMaps,
    now: &str,
    now_ms: i64,
    doc_ids: &StrMap<String>,
    attachment_ids: StrMap<String>,
) -> (r: ImportBuildResult)
    requires
        space_config::cycles_ok(*export),
        has_blobs(*export) ==> ids_ok(*export, new_space_id@, maps.user_map@),
        doc_ids_for(export.documents@, doc_ids@),
        attachment_ids_for(export.attachments@, attachment_ids@),
        instantiator::uuid_values(doc_ids@),
        instantiator::uuid_values(attachment_ids@),
    ensures
        r.attachment_id_map@ == attachment_ids@,
        exists|pairs: Seq<(String, String)>, shown: Map<Seq<char>, Vec<XmlIn>>|
            #[trigger] import_with(
                *export,
                new_space_id@,
                importer_id@,
                *maps,
                r,
                now@,
                now_ms as int,
                doc_ids@,
                pairs,
                shown,
            ),
{
    let uuid_map = blob_uuid_map(
        export.space.id.as_str(),
        new_space_id,
        doc_ids,
        &attachment_ids,
        &maps.user_map,
    );
    let pairs_of = uuid_map.entries();
    let ghost pairs = uuid_map.pairs();
    let shown = show_blobs(export, &uuid_map);
    let s = Surroundings {
        importer: importer_id,
        now,
        now_ms,
        shown: &shown,
        users: &maps.user_map,
        teams: &maps.team_map,
    };
    let ghost st = setting(importer_id@, *maps, now@, now_ms as int, shown@);
    proof {
        assert(s.setting() == st);
    }
    let config = space_config::build_config(export, &s);
    let active = items::write_items(&export.items, false, &s);
    let metadata = documents::build_documents_metadata(
        &export.documents,
        &s,
        doc_ids,
        &export.items,
        &export.milestones.definitions,
    );
    let overview = match &export.overview_yjs {
        Some(b) => Some(blob::nodes_of_blob(b.as_str(), &shown)),
        None => None,
    };
    let space_doc = instantiator::fill_space_doc(config, active, metadata, overview);
    let archive_doc = if is_any_deep(&export.items) {
        let deep = items::write_items(&export.items, true, &s);
        let threads = items::write_comment_threads(&export.items, true, &s);
        Some(fill_archive_doc(deep, threads))
    } else {
        None
    };
    let comments_doc = if is_any_thread(&export.items) {
        let threads = items::write_comment_threads(&export.items, false, &s);
        Some(fill_comments_doc(threads))
    } else {
        None
    };
    let document_docs = documents::load_documents(&export.documents, doc_ids, &uuid_map);
    let document_manifest = documents::document_manifest(&export.documents, doc_ids);
    let counters = losses::count_losses(export, &maps.user_map, &maps.team_map);
    let warnings = losses::loss_warnings(&counters);
    let max_short_id: i64 = max_short_id(&export.items);
    let r = ImportBuildResult {
        space_doc,
        archive_doc,
        comments_doc,
        document_docs,
        document_manifest,
        attachment_id_map: attachment_ids,
        max_short_id,
        warnings,
    };
    proof {
        assert(str_map::map_of(pairs) == uuid_map@);
        assert(losses::counters_are(counters, *export, maps.user_map@, maps.team_map@));
        assert(imported(*export, *maps, st, pairs, doc_ids@, attachment_ids@, r));
        assert(import_with(
            *export,
            new_space_id@,
            importer_id@,
            *maps,
            r,
            now@,
            now_ms as int,
            doc_ids@,
            pairs,
            shown@,
        ));
    }
    r
}

/// What holds of an import with given new ids and a given time, where `pairs` are the
/// UUIDs to replace in blobs, and `shown` is what was taken from the blobs.
pub open spec fn import_with(
    e: SpaceExport,
    new_space: Seq<char>,
    importer: Seq<char>,
    maps: ImportMaps,
    r: ImportBuildResult,
    now: Seq<char>,
    now_ms: int,
    doc_ids: Map<Seq<char>, String>,
    pairs: Seq<(String, String)>,
    shown: Map<Seq<char>, Vec<XmlIn>>,
) -> bool {
    &&& doc_ids_for(e.documents@, doc_ids)
    &&& instantiator::uuid_values(doc_ids)
    &&& attachment_ids_for(e.attachments@, r.attachment_id_map@)
    &&& instantiator::uuid_values(r.attachment_id_map@)
    &&& str_map::unique_keys(pairs)
    &&& replaces(
        str_map::map_of(pairs),
        e.space.id@,
        new_space,
        doc_ids,
        r.attachment_id_map@,
        maps.user_map@,
    )
    &&& imported(
        e,
        maps,
        setting(importer, maps, now, now_ms, shown),
        pairs,
        doc_ids,
        r.attachment_id_map@,
        r,
    )
}

/// What holds of an import, whatever the new ids and the time are, and whatever texts were
/// read where a blob does not fix them. The new ids are random UUIDs, and the time is one
/// instant in both its forms.
pub open spec fn is_import(
    e: SpaceExport,
    new_space: Seq<char>,
    importer: Seq<char>,
    maps: ImportMaps,
    r: ImportBuildResult,
) -> bool {
    exists|
        now: Seq<char>,
        now_ms: int,
        doc_ids: Map<Seq<char>, String>,
        pairs: Seq<(String, String)>,
        shown: Map<Seq<char>, Vec<XmlIn>>,
    |
        {
            &&& calendar::one_instant(now, now_ms)
            &&& instantiator::random_values(doc_ids)
            &&& instantiator::random_values(r.attachment_id_map@)
            &&& #[trigger] import_with(
                e,
                new_space,
                importer,
                maps,
                r,
                now,
                now_ms,
                doc_ids,
                pairs,
                shown,
            )
        }
}

/// Builds all Yjs documents for a new space from an export.
///
/// Items and comments keep their UUIDs; documents and attachments get fresh ones,
/// and the rich-text blobs are rewritten for them, for the space and for the mapped
/// users. Assignees who are not mapped are dropped; comment authors who are not
/// mapped keep their exported name without an account.
pub fn build_space_from_export(
    export: &SpaceExport,
    new_space_id: &str,
    importer_id: &str,
    maps: &ImportMaps,
) -> (r: ImportBuildResult)
    requires
        space_config::cycles_ok(*export),
        has_blobs(*export) ==> ids_ok(*export, new_space_id@, maps.user_map@),
    ensures
        is_import(*export, new_space_id@, importer_id@, *maps, r),
{
    let doc_ids = new_doc_ids(&export.documents);
    let attachment_ids = new_attachment_ids(&export.attachments);
    let (now, now_ms) = calendar::now();
    let r = build_space_with(
        export,
        new_space_id,
        importer_id,
        maps,
        now.as_str(),
        now_ms,
        &doc_ids,
        attachment_ids,
    );
    r
}

/// Builds all Yjs documents for a new space from an export, where the ids that go into
/// its blobs have the length of a UUID.
pub fn try_build_space_from_export(
    export: &SpaceExport,
    new_space_id: &str,
    importer_id: &str,
    maps: &ImportMaps,
) -> (r: Option<ImportBuildResult>)
    requires
        space_config::cycles_ok(*export),
    ensures
        r is Some <==> (has_blobs(*export) ==> ids_ok(*export, new_space_id@, maps.user_map@)),
        r matches Some(b) ==> is_import(*export, new_space_id@, importer_id@, *maps, b),
{
    if !ids_fit(export, new_space_id, &maps.user_map) && any_blob(export) {
        return None;
    }
    Some(build_space_from_export(export, new_space_id, importer_id, maps))
}

} // verus!
