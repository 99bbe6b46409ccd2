//! Template instantiation: template content to Yjs documents.
//!
//! Item UUIDs are kept: each space is an isolated document, so they need only be
//! unique within their space. Document and attachment UUIDs are made anew, and all
//! references to them in rich-text blobs are remapped by replacing bytes.

use vstd::prelude::*;
use yrs::types::xml::XmlIn;
use yrs::{Doc, In};

use crate::calendar::{self, Date};
use crate::codec;
use crate::rich_text::XmlTree;
use crate::str_map::{self, StrMap};
use crate::template::blob;
use crate::template::config::{self, put, put_opt, put_str, FilterPolicy};
use crate::template::items::{self, Setting};
use crate::template::types::{
    TemplateAttachment, TemplateContent, TemplateDocument, TemplateItem, TemplateMilestoneDef,
    TemplateMilestones,
};
use crate::text;
use crate::ydoc::{self, YTree};

pub use crate::template::blob::remap_uuids_in_blob;

verus! {

/// A document with its new UUID and its title.
pub struct DocumentManifestEntry {
    pub new_id: String,
    pub title: String,
}

/// An attachment to copy into the new space.
pub struct AttachmentManifestEntry {
    /// UUID of the attachment in the template.
    pub old_id: String,
    /// Fresh UUID for the copy, already put into the inline image URLs.
    pub new_id: String,
    pub filename: String,
    pub content_type: String,
    pub size_bytes: i64,
}

/// Result of template instantiation.
pub struct InstantiationResult {
    /// The main document: items, metadata of documents, configuration.
    pub space_doc: Doc,
    /// A document for the content of each document, by new document id.
    pub document_docs: Vec<(String, Doc)>,
    /// The documents with their new UUIDs.
    pub document_manifest: Vec<DocumentManifestEntry>,
    /// The attachments to copy.
    pub attachment_manifest: Vec<AttachmentManifestEntry>,
    /// The comments document, where any item has comments.
    pub comments_doc: Option<Doc>,
}

// ---------------------------------------------------------------------------
// Milestones
// ---------------------------------------------------------------------------

/// A milestone, with its deadline as a date.
pub open spec fn milestone_tree(d: TemplateMilestoneDef, start: Date) -> YTree {
    let m = Map::empty().insert("id"@, ydoc::ystr(d.id@)).insert("name"@, ydoc::ystr(d.name@));
    let m = config::with_opt(m, "description"@, text::opt_text(d.description));
    YTree::Dict(items::with_date(m, "deadline"@, start, d.offset_days))
}

/// The milestones that stand in the order, by id.
pub open spec fn milestone_trees(
    order: Seq<String>,
    defs: Map<Seq<char>, TemplateMilestoneDef>,
    start: Date,
) -> Map<Seq<char>, YTree>
    decreases order.len(),
{
    if order.len() == 0 {
        Map::empty()
    } else {
        let rest = milestone_trees(order.drop_last(), defs, start);
        let k = order.last()@;
        if defs.contains_key(k) {
            rest.insert(defs[k].id@, milestone_tree(defs[k], start))
        } else {
            rest
        }
    }
}

/// Every milestone that stands in the order is in the space under its own id.
pub proof fn lemma_milestone_ids_kept(
    order: Seq<String>,
    defs: Map<Seq<char>, TemplateMilestoneDef>,
    start: Date,
    i: int,
)
    requires
        0 <= i < order.len(),
        defs.contains_key(order[i]@),
    ensures
        milestone_trees(order, defs, start).contains_key(defs[order[i]@].id@),
    decreases order.len(),
{
    if i < order.len() - 1 {
        lemma_milestone_ids_kept(order.drop_last(), defs, start, i);
    }
}

/// The ids of the milestones that stand in the order.
pub open spec fn milestone_ids(
    order: Seq<String>,
    defs: Map<Seq<char>, TemplateMilestoneDef>,
) -> Seq<YTree>
    decreases order.len(),
{
    if order.len() == 0 {
        seq![]
    } else {
        let rest = milestone_ids(order.drop_last(), defs);
        let k = order.last()@;
        if defs.contains_key(k) {
            rest.push(ydoc::ystr(defs[k].id@))
        } else {
            rest
        }
    }
}

/// The configuration with the milestones.
pub open spec fn with_milestones(
    config: Map<Seq<char>, YTree>,
    m: TemplateMilestones,
    start: Date,
) -> Map<Seq<char>, YTree> {
    config.insert(
        "milestones"@,
        YTree::Dict(milestone_trees(m.order@, m.definitions@, start)),
    ).insert("milestones_order"@, YTree::List(milestone_ids(m.order@, m.definitions@)))
}

/// Whether the deadlines of the milestones that stand in the order exist.
pub open spec fn milestones_ok(m: TemplateMilestones, start: Date) -> bool {
    forall|i: int|
        0 <= i < m.order@.len() && m.definitions@.contains_key((#[trigger] m.order@[i])@)
            ==> items::date_ok(start, m.definitions@[m.order@[i]@].offset_days)
}

fn build_milestones(config: &mut Vec<(String, In)>, m: &TemplateMilestones, start: &Date)
    requires
        milestones_ok(*m, *start),
    ensures
        ydoc::entries_tree(final(config)@) == with_milestones(
            ydoc::entries_tree(old(config)@),
            *m,
            *start,
        ),
{
    let ghost order = m.order@;
    let mut defs: Vec<(String, In)> = Vec::new();
    let mut ids: Vec<In> = Vec::new();
    let mut i: usize = 0;
    assert(order.take(0) =~= seq![]);
    assert(ydoc::ins_tree(ids@) =~= seq![]);
    while i < m.order.len()
        invariant
            i <= order.len(),
            order == m.order@,
            milestones_ok(*m, *start),
            ydoc::entries_tree(defs@) == milestone_trees(
                order.take(i as int),
                m.definitions@,
                *start,
            ),
            ydoc::ins_tree(ids@) == milestone_ids(order.take(i as int), m.definitions@),
        decreases order.len() - i,
    {
        let ghost before = ids@;
        assert(order.take(i + 1).drop_last() =~= order.take(i as int));
        if let Some(d) = m.definitions.get(m.order[i].as_str()) {
            assert(items::date_ok(*start, m.definitions@[m.order@[i as int]@].offset_days));
            let mut e: Vec<(String, In)> = Vec::new();
            put_str(&mut e, "id", d.id.as_str());
            put_str(&mut e, "name", d.name.as_str());
            put_opt(&mut e, "description", &d.description);
            items::put_date(&mut e, "deadline", start, d.offset_days);
            put(&mut defs, d.id.as_str(), ydoc::in_dict(e));
            ids.push(ydoc::in_str(d.id.as_str()));
            assert(ydoc::ins_tree(ids@) =~= ydoc::ins_tree(before).push(ydoc::ystr(d.id@)));
        }
        i = i + 1;
    }
    assert(order.take(order.len() as int) =~= order);
    put(config, "milestones", ydoc::in_dict(defs));
    put(config, "milestones_order", ydoc::in_list(ids));
}

// ---------------------------------------------------------------------------
// The space document
// ---------------------------------------------------------------------------

/// The prefix of short ids: the given one, or that of the template, or `PRJ`.
pub open spec fn short_id_prefix_of(content: TemplateContent, prefix: Option<Seq<char>>) -> Seq<
    char,
> {
    match (prefix, content.short_id_config) {
        (Some(p), _) => p,
        (None, Some(c)) => c.prefix@,
        (None, None) => "PRJ"@,
    }
}

/// Whether short ids are shown.
pub open spec fn short_id_visible_of(content: TemplateContent) -> bool {
    match content.short_id_config {
        Some(c) => c.visible,
        None => true,
    }
}

/// The entries with the archive configuration, if there is one.
pub open spec fn with_archive_config(m: Map<Seq<char>, YTree>, days: Option<i64>) -> Map<
    Seq<char>,
    YTree,
> {
    match days {
        Some(n) => m.insert(
            "archive_config"@,
            YTree::Dict(Map::empty().insert("migration_days"@, ydoc::ynumber(n as int))),
        ),
        None => m,
    }
}

/// The number of days in an archive configuration.
pub open spec fn archive_days(
    c: Option<crate::template::types::TemplateArchiveConfig>,
) -> Option<i64> {
    match c {
        Some(a) => Some(a.migration_days),
        None => None,
    }
}

/// The configuration of the new space.
pub open spec fn config_tree(
    content: TemplateContent,
    start: Date,
    prefix: Option<Seq<char>>,
) -> Map<Seq<char>, YTree> {
    let m = config::with_labels(Map::empty(), content.labels, None);
    let m = with_milestones(m, content.milestones, start);
    let m = config::with_cycle_config(m, content.cycle_config, 1);
    let m = m.insert("short_id_prefix"@, ydoc::ystr(short_id_prefix_of(content, prefix))).insert(
        "short_id_visible"@,
        ydoc::ybool(short_id_visible_of(content)),
    );
    let m = with_archive_config(m, archive_days(content.archive_config));
    config::with_views(m, content.views, FilterPolicy::Clean)
}

pub(crate) fn put_archive_config(
    e: &mut Vec<(String, In)>,
    c: &Option<crate::template::types::TemplateArchiveConfig>,
)
    ensures
        ydoc::entries_tree(final(e)@) == with_archive_config(
            ydoc::entries_tree(old(e)@),
            archive_days(*c),
        ),
{
    if let Some(a) = c {
        let mut m: Vec<(String, In)> = Vec::new();
        put(&mut m, "migration_days", ydoc::in_number(a.migration_days));
        put(e, "archive_config", ydoc::in_dict(m));
    }
}

fn build_config(content: &TemplateContent, start: &Date, prefix: Option<&str>) -> (r: Vec<
    (String, In),
>)
    requires
        milestones_ok(content.milestones, *start),
    ensures
        ydoc::entries_tree(r@) == config_tree(*content, *start, opt_str(prefix)),
{
    let mut e: Vec<(String, In)> = Vec::new();
    config::build_labels(&mut e, &content.labels, None);
    build_milestones(&mut e, &content.milestones, start);
    config::build_cycle_config(&mut e, &content.cycle_config, 1);
    match prefix {
        Some(p) => {
            put_str(&mut e, "short_id_prefix", p);
        },
        None => match &content.short_id_config {
            Some(c) => {
                put_str(&mut e, "short_id_prefix", c.prefix.as_str());
            },
            None => {
                put_str(&mut e, "short_id_prefix", "PRJ");
            },
        },
    }
    let visible = match &content.short_id_config {
        Some(c) => c.visible,
        None => true,
    };
    put(&mut e, "short_id_visible", ydoc::in_bool(visible));
    put_archive_config(&mut e, &content.archive_config);
    config::build_views(&mut e, &content.views, &FilterPolicy::Clean);
    e
}

/// The view of an optional text.
pub open spec fn opt_str(o: Option<&str>) -> Option<Seq<char>> {
    match o {
        Some(s) => Some(s@),
        None => None,
    }
}

// ---------------------------------------------------------------------------
// New ids
// ---------------------------------------------------------------------------

/// Whether there is a blob to remap: one that is base64.
pub open spec fn has_blobs(content: TemplateContent) -> bool {
    ||| blob::decodes(content.overview_yjs)
    ||| exists|i: int| 0 <= i < content.items@.len() && item_has_blobs(#[trigger] content.items@[i])
    ||| exists|i: int|
        0 <= i < content.documents@.len() && blob::decodes(
            (#[trigger] content.documents@[i]).content_yjs,
        )
}

/// Whether an item or one of its comments has a blob to remap.
pub open spec fn item_has_blobs(t: TemplateItem) -> bool {
    ||| blob::decodes(t.description_yjs)
    ||| exists|j: int|
        0 <= j < t.comments@.len() && blob::decodes((#[trigger] t.comments@[j]).content_yjs)
}

fn any_item_blob(t: &TemplateItem) -> (r: bool)
    ensures
        r == item_has_blobs(*t),
{
    if blob::can_decode(&t.description_yjs) {
        return true;
    }
    let mut j: usize = 0;
    while j < t.comments.len()
        invariant
            j <= t.comments@.len(),
            forall|k: int|
                0 <= k < j ==> !blob::decodes((#[trigger] t.comments@[k]).content_yjs),
        decreases t.comments@.len() - j,
    {
        if blob::can_decode(&t.comments[j].content_yjs) {
            return true;
        }
        j = j + 1;
    }
    false
}

fn any_blob(content: &TemplateContent) -> (r: bool)
    ensures
        r == has_blobs(*content),
{
    if blob::can_decode(&content.overview_yjs) {
        return true;
    }
    let mut i: usize = 0;
    while i < content.items.len()
        invariant
            i <= content.items@.len(),
            forall|k: int| 0 <= k < i ==> !item_has_blobs(#[trigger] content.items@[k]),
        decreases content.items@.len() - i,
    {
        if any_item_blob(&content.items[i]) {
            return true;
        }
        i = i + 1;
    }
    let mut i: usize = 0;
    while i < content.documents.len()
        invariant
            i <= content.documents@.len(),
            forall|k: int|
                0 <= k < content.items@.len() ==> !item_has_blobs(#[trigger] content.items@[k]),
            !blob::decodes(content.overview_yjs),
            forall|k: int|
                0 <= k < i ==> !blob::decodes((#[trigger] content.documents@[k]).content_yjs),
        decreases content.documents@.len() - i,
    {
        if blob::can_decode(&content.documents[i].content_yjs) {
            return true;
        }
        i = i + 1;
    }
    false
}

/// Whether the nodes of the blobs of an item and its comments are there.
pub open spec fn item_shown(t: TemplateItem, shown: Map<Seq<char>, Vec<XmlIn>>) -> bool {
    &&& blob::is_shown(t.description_yjs, shown)
    &&& forall|j: int|
        0 <= j < t.comments@.len() ==> blob::is_shown(
            (#[trigger] t.comments@[j]).content_yjs,
            shown,
        )
}

/// Whether `shown` holds what was taken from the blobs of a template, but for its
/// documents.
pub open spec fn blobs_shown(
    content: TemplateContent,
    pairs: Seq<(String, String)>,
    shown: Map<Seq<char>, Vec<XmlIn>>,
) -> bool {
    &&& blob::all_copied(shown, pairs)
    &&& blob::is_shown(content.overview_yjs, shown)
    &&& forall|i: int|
        0 <= i < content.items@.len() ==> item_shown(#[trigger] content.items@[i], shown)
}

fn show_item(t: &TemplateItem, uuid_map: &StrMap<String>, shown: &mut StrMap<Vec<XmlIn>>)
    requires
        item_has_blobs(*t) ==> blob::uuid_pairs(uuid_map.pairs()),
        blob::all_copied(old(shown)@, uuid_map.pairs()),
    ensures
        blob::all_copied(final(shown)@, uuid_map.pairs()),
        item_shown(*t, final(shown)@),
        blob::keeps_shown(old(shown)@, final(shown)@),
{
    let ghost before = shown@;
    blob::show_blob(&t.description_yjs, uuid_map, shown);
    let mut j: usize = 0;
    while j < t.comments.len()
        invariant
            j <= t.comments@.len(),
            item_has_blobs(*t) ==> blob::uuid_pairs(uuid_map.pairs()),
            blob::all_copied(shown@, uuid_map.pairs()),
            blob::keeps_shown(before, shown@),
            blob::is_shown(t.description_yjs, shown@),
            forall|k: int|
                0 <= k < j ==> blob::is_shown((#[trigger] t.comments@[k]).content_yjs, shown@),
        decreases t.comments@.len() - j,
    {
        assert(blob::decodes(t.comments@[j as int].content_yjs) ==> item_has_blobs(*t));
        blob::show_blob(&t.comments[j].content_yjs, uuid_map, shown);
        j = j + 1;
    }
}

/// Takes the nodes from the blobs of a template, but for its documents.
fn show_blobs(content: &TemplateContent, uuid_map: &StrMap<String>) -> (r: StrMap<Vec<XmlIn>>)
    requires
        has_blobs(*content) ==> blob::uuid_pairs(uuid_map.pairs()),
    ensures
        blobs_shown(*content, uuid_map.pairs(), r@),
{
    let mut shown: StrMap<Vec<XmlIn>> = StrMap::new();
    blob::show_blob(&content.overview_yjs, uuid_map, &mut shown);
    let mut i: usize = 0;
    while i < content.items.len()
        invariant
            i <= content.items@.len(),
            has_blobs(*content) ==> blob::uuid_pairs(uuid_map.pairs()),
            blob::all_copied(shown@, uuid_map.pairs()),
            blob::is_shown(content.overview_yjs, shown@),
            forall|k: int| 0 <= k < i ==> item_shown(#[trigger] content.items@[k], shown@),
        decreases content.items@.len() - i,
    {
        let ghost before = shown@;
        assert(item_has_blobs(content.items@[i as int]) ==> has_blobs(*content));
        show_item(&content.items[i], uuid_map, &mut shown);
        assert forall|k: int| 0 <= k < i implies item_shown(
            #[trigger] content.items@[k],
            shown@,
        ) by {
            assert(item_shown(content.items@[k], before));
        }
        i = i + 1;
    }
    shown
}

/// The source space and the new space, where both are known and differ.
pub open spec fn space_pair(content: TemplateContent, new_space: Option<Seq<char>>) -> Option<
    (Seq<char>, Seq<char>),
> {
    match (content.source_space_id, new_space) {
        (Some(old), Some(new)) => if old@ != new {
            Some((old@, new))
        } else {
            None
        },
        _ => None,
    }
}

/// Whether the ids to replace in blobs have the length of a UUID.
pub open spec fn ids_ok(content: TemplateContent, new_space: Option<Seq<char>>) -> bool {
    &&& forall|i: int|
        0 <= i < content.documents@.len() ==> blob::utf8((#[trigger] content.documents@[i]).id@).len()
            == blob::UUID_LEN
    &&& forall|i: int|
        0 <= i < content.attachments@.len() ==> blob::utf8(
            (#[trigger] content.attachments@[i]).id@,
        ).len() == blob::UUID_LEN
    &&& space_pair(content, new_space) matches Some((old, new)) ==> blob::utf8(old).len()
        == blob::UUID_LEN && blob::utf8(new).len() == blob::UUID_LEN
}

fn ids_fit(content: &TemplateContent, new_space: Option<&str>) -> (r: bool)
    ensures
        r == ids_ok(*content, opt_str(new_space)),
{
    let mut i: usize = 0;
    while i < content.documents.len()
        invariant
            i <= content.documents@.len(),
            forall|k: int|
                0 <= k < i ==> blob::utf8((#[trigger] content.documents@[k]).id@).len()
                    == blob::UUID_LEN,
        decreases content.documents@.len() - i,
    {
        if !blob::has_uuid_len(content.documents[i].id.as_str()) {
            return false;
        }
        i = i + 1;
    }
    let mut i: usize = 0;
    while i < content.attachments.len()
        invariant
            i <= content.attachments@.len(),
            forall|k: int|
                0 <= k < i ==> blob::utf8((#[trigger] content.attachments@[k]).id@).len()
                    == blob::UUID_LEN,
        decreases content.attachments@.len() - i,
    {
        if !blob::has_uuid_len(content.attachments[i].id.as_str()) {
            return false;
        }
        i = i + 1;
    }
    match (&content.source_space_id, new_space) {
        (Some(old), Some(new)) => text::str_eq(old.as_str(), new) || (blob::has_uuid_len(
            old.as_str(),
        ) && blob::has_uuid_len(new)),
        _ => true,
    }
}

/// Whether all dates of the template exist, counted from the start.
pub open spec fn dates_ok(content: TemplateContent, start: Date) -> bool {
    &&& milestones_ok(content.milestones, start)
    &&& forall|i: int|
        0 <= i < content.items@.len() ==> {
            &&& items::date_ok(start, (#[trigger] content.items@[i]).due_date_offset_days)
            &&& items::date_ok(start, content.items@[i].start_date_offset_days)
            &&& comment_times_ok(content.items@[i], start)
        }
}

/// Whether the times of the comments of an item exist.
pub open spec fn comment_times_ok(t: crate::template::types::TemplateItem, start: Date) -> bool {
    forall|j: int|
        0 <= j < t.comments@.len() ==> start.plus_seconds(
            (#[trigger] t.comments@[j]).created_at_offset_seconds as int,
        ) is Some
}

/// Whether `ids` has a key for each document, and no other.
pub open spec fn doc_ids_for(v: Seq<TemplateDocument>, ids: Map<Seq<char>, String>) -> bool {
    forall|k: Seq<char>| #[trigger]
        ids.contains_key(k) <==> exists|i: int| 0 <= i < v.len() && (#[trigger] v[i]).id@ == k
}

/// Whether `ids` has a key for each attachment, and no other.
pub open spec fn attachment_ids_for(
    v: Seq<TemplateAttachment>,
    ids: Map<Seq<char>, String>,
) -> bool {
    forall|k: Seq<char>| #[trigger]
        ids.contains_key(k) <==> exists|i: int| 0 <= i < v.len() && (#[trigger] v[i]).id@ == k
}

/// Whether all values are UUID texts.
pub open spec fn uuid_values(ids: Map<Seq<char>, String>) -> bool {
    forall|k: Seq<char>| #[trigger] ids.contains_key(k) ==> codec::is_hyphenated(ids[k]@)
}

/// Whether all values are texts of random UUIDs.
pub open spec fn random_values(ids: Map<Seq<char>, String>) -> bool {
    forall|k: Seq<char>| #[trigger] ids.contains_key(k) ==> codec::is_random_uuid(ids[k]@)
}

fn new_doc_ids(v: &Vec<TemplateDocument>) -> (r: StrMap<String>)
    ensures
        doc_ids_for(v@, r@),
        random_values(r@),
{
    let mut ids: StrMap<String> = StrMap::new();
    let mut i: usize = 0;
    while i < v.len()
        invariant
            i <= v@.len(),
            forall|k: Seq<char>| #[trigger]
                ids@.contains_key(k) <==> exists|j: int| 0 <= j < i && (#[trigger] v@[j]).id@ == k,
            random_values(ids@),
        decreases v@.len() - i,
    {
        let ghost before = ids@;
        ids.insert(v[i].id.clone(), codec::fresh_uuid());
        assert forall|k: Seq<char>| #[trigger] ids@.contains_key(k) <==> exists|j: int|
            0 <= j < i + 1 && (#[trigger] v@[j]).id@ == k by {
            assert(v@[i as int].id@ == v@[i as int].id@);
            if before.contains_key(k) {
                let j = choose|j: int| 0 <= j < i && (#[trigger] v@[j]).id@ == k;
                assert(v@[j].id@ == k);
            }
        }
        i = i + 1;
    }
    ids
}

fn new_attachment_ids(v: &Vec<TemplateAttachment>) -> (r: StrMap<String>)
    ensures
        attachment_ids_for(v@, r@),
        random_values(r@),
{
    let mut ids: StrMap<String> = StrMap::new();
    let mut i: usize = 0;
    while i < v.len()
        invariant
            i <= v@.len(),
            forall|k: Seq<char>| #[trigger]
                ids@.contains_key(k) <==> exists|j: int| 0 <= j < i && (#[trigger] v@[j]).id@ == k,
            random_values(ids@),
        decreases v@.len() - i,
    {
        let ghost before = ids@;
        ids.insert(v[i].id.clone(), codec::fresh_uuid());
        assert forall|k: Seq<char>| #[trigger] ids@.contains_key(k) <==> exists|j: int|
            0 <= j < i + 1 && (#[trigger] v@[j]).id@ == k by {
            assert(v@[i as int].id@ == v@[i as int].id@);
            if before.contains_key(k) {
                let j = choose|j: int| 0 <= j < i && (#[trigger] v@[j]).id@ == k;
                assert(v@[j].id@ == k);
            }
        }
        i = i + 1;
    }
    ids
}

/// Whether `map` replaces the documents and the attachments by their new ids, and
/// the space by the new one.
pub open spec fn replaces(
    map: Map<Seq<char>, String>,
    doc_ids: Map<Seq<char>, String>,
    attachment_ids: Map<Seq<char>, String>,
    space: Option<(Seq<char>, Seq<char>)>,
) -> bool {
    let base = doc_ids.union_prefer_right(attachment_ids);
    match space {
        None => map == base,
        Some((old, new)) => map.contains_key(old) && map[old]@ == new && map.remove(old)
            == base.remove(old),
    }
}

proof fn lemma_id_pairs(
    pairs: Seq<(String, String)>,
    ids: Map<Seq<char>, String>,
    known: Set<Seq<char>>,
)
    requires
        ids == str_map::map_of(pairs),
        str_map::unique_keys(pairs),
        uuid_values(ids),
        ids.dom().subset_of(known),
        forall|k: Seq<char>| #[trigger] known.contains(k) ==> blob::utf8(k).len() == blob::UUID_LEN,
    ensures
        blob::uuid_pairs(pairs),
{
    assert forall|i: int| 0 <= i < pairs.len() implies blob::utf8((#[trigger] pairs[i]).0@).len()
        == blob::UUID_LEN && blob::utf8(pairs[i].1@).len() == blob::UUID_LEN by {
        str_map::lemma_map_of(pairs, i);
        let k = pairs[i].0@;
        assert(ids.contains_key(k));
        assert(known.contains(k));
        codec::lemma_uuid_len(ids[k]@);
    }
}

/// The ids of the documents.
pub open spec fn document_id_set(v: Seq<TemplateDocument>) -> Set<Seq<char>> {
    Set::new(|k: Seq<char>| exists|i: int| 0 <= i < v.len() && (#[trigger] v[i]).id@ == k)
}

/// The ids of the attachments.
pub open spec fn attachment_id_set(v: Seq<TemplateAttachment>) -> Set<Seq<char>> {
    Set::new(|k: Seq<char>| exists|i: int| 0 <= i < v.len() && (#[trigger] v[i]).id@ == k)
}

/// The UUIDs to replace in blobs.
fn blob_uuid_map(
    content: &TemplateContent,
    new_space: Option<&str>,
    doc_ids: &StrMap<String>,
    attachment_ids: &StrMap<String>,
) -> (r: StrMap<String>)
    requires
        doc_ids_for(content.documents@, doc_ids@),
        attachment_ids_for(content.attachments@, attachment_ids@),
        uuid_values(doc_ids@),
        uuid_values(attachment_ids@),
    ensures
        replaces(r@, doc_ids@, attachment_ids@, space_pair(*content, opt_str(new_space))),
        ids_ok(*content, opt_str(new_space)) ==> blob::uuid_pairs(r.pairs()),
{
    let mut map: StrMap<String> = StrMap::new();
    let d = doc_ids.entries();
    let a = attachment_ids.entries();
    str_map::extend(&mut map, doc_ids);
    let ghost m1 = map.pairs();
    assert(map@ =~= doc_ids@);
    str_map::extend(&mut map, attachment_ids);
    let ghost m2 = map.pairs();
    let ghost base = map@;
    let ghost ok = ids_ok(*content, opt_str(new_space));
    proof {
        if ok {
            lemma_id_pairs(d@, doc_ids@, document_id_set(content.documents@));
            lemma_id_pairs(a@, attachment_ids@, attachment_id_set(content.attachments@));
            assert forall|i: int| 0 <= i < m1.len() implies blob::utf8(
                (#[trigger] m1[i]).0@,
            ).len() == blob::UUID_LEN && blob::utf8(m1[i].1@).len() == blob::UUID_LEN by {
                assert(d@.contains(m1[i]));
            }
            assert forall|i: int| 0 <= i < m2.len() implies blob::utf8(
                (#[trigger] m2[i]).0@,
            ).len() == blob::UUID_LEN && blob::utf8(m2[i].1@).len() == blob::UUID_LEN by {
                assert(m1.contains(m2[i]) || a@.contains(m2[i]));
            }
        }
    }
    if let Some(old) = &content.source_space_id {
        if let Some(new) = new_space {
            if !text::str_eq(old.as_str(), new) {
                let value = new.to_owned();
                map.insert(old.clone(), value);
                proof {
                    assert(map@.remove(old@) =~= base.remove(old@));
                    if ok {
                        assert forall|i: int| 0 <= i < map.pairs().len() implies blob::utf8(
                            (#[trigger] map.pairs()[i]).0@,
                        ).len() == blob::UUID_LEN && blob::utf8(map.pairs()[i].1@).len()
                            == blob::UUID_LEN by {
                            if m2.contains(map.pairs()[i]) {
                                let j = choose|j: int|
                                    0 <= j < m2.len() && m2[j] == map.pairs()[i];
                                assert(m2[j].0@ == map.pairs()[i].0@);
                            }
                        }
                    }
                }
            }
        }
    }
    map
}

// ---------------------------------------------------------------------------
// Documents and manifests
// ---------------------------------------------------------------------------

/// Whether a document holds what the update gives an empty one, be its roots read as
/// fragments, maps or arrays.
pub open spec fn holds_update(doc: Doc, update: Seq<u8>) -> bool {
    &&& forall|key: Seq<char>|
        ydoc::fragment_under(ydoc::doc_roots(doc), key) == #[trigger] ydoc::update_fragment(
            update,
            key,
        )
    &&& ydoc::loaded_entries(doc) == ydoc::update_entries(update)
    &&& ydoc::loaded_items(doc) == ydoc::update_items(update)
}

/// The update in the content of a document, where there is one that can be
/// loaded.
pub open spec fn document_update(b64: Option<Seq<char>>, pairs: Seq<(String, String)>) -> Option<
    Seq<u8>,
> {
    match b64 {
        None => None,
        Some(b) => if b.len() == 0 {
            None
        } else {
            match blob::blob_update(b, pairs) {
                Some(u) => if ydoc::is_update(u) {
                    Some(u)
                } else {
                    None
                },
                None => None,
            }
        },
    }
}

/// Whether `out` holds, in order, the content of each document that has any, under
/// its new id.
pub open spec fn documents_loaded(
    v: Seq<TemplateDocument>,
    ids: Map<Seq<char>, String>,
    pairs: Seq<(String, String)>,
    out: Seq<(String, Doc)>,
) -> bool
    decreases v.len(),
{
    if v.len() == 0 {
        out.len() == 0
    } else {
        let d = v.last();
        match document_update(text::opt_text(d.content_yjs), pairs) {
            Some(u) => if ids.contains_key(d.id@) {
                &&& out.len() > 0
                &&& out.last().0@ == ids[d.id@]@
                &&& holds_update(out.last().1, u)
                &&& documents_loaded(v.drop_last(), ids, pairs, out.drop_last())
            } else {
                documents_loaded(v.drop_last(), ids, pairs, out)
            },
            None => documents_loaded(v.drop_last(), ids, pairs, out),
        }
    }
}

fn load_documents(v: &Vec<TemplateDocument>, ids: &StrMap<String>, uuid_map: &StrMap<String>) -> (r:
    Vec<(String, Doc)>)
    requires
        forall|i: int|
            0 <= i < v@.len() && blob::decodes((#[trigger] v@[i]).content_yjs) ==> blob::uuid_pairs(
                uuid_map.pairs(),
            ),
    ensures
        documents_loaded(v@, ids@, uuid_map.pairs(), r@),
{
    let ghost pairs = uuid_map.pairs();
    let mut out: Vec<(String, Doc)> = Vec::new();
    let mut i: usize = 0;
    assert(v@.take(0) =~= seq![]);
    while i < v.len()
        invariant
            i <= v@.len(),
            pairs == uuid_map.pairs(),
            forall|i: int|
                0 <= i < v@.len() && blob::decodes((#[trigger] v@[i]).content_yjs) ==> blob::uuid_pairs(
                    pairs,
                ),
            documents_loaded(v@.take(i as int), ids@, pairs, out@),
        decreases v@.len() - i,
    {
        let ghost before = out@;
        assert(v@.take(i + 1).drop_last() =~= v@.take(i as int));
        if let Some(b) = &v[i].content_yjs {
            if !b.as_str().is_empty() {
                if let Some(new_id) = ids.get(v[i].id.as_str()) {
                    if let Some(doc) = blob::decode_base64_to_doc(b.as_str(), uuid_map) {
                        out.push((new_id.clone(), doc));
                        assert(out@.drop_last() =~= before);
                    }
                }
            }
        }
        i = i + 1;
    }
    assert(v@.take(v@.len() as int) =~= v@);
    out
}

/// The new id and the title of each document that has a new id.
pub open spec fn manifest_of(v: Seq<TemplateDocument>, ids: Map<Seq<char>, String>) -> Seq<
    (Seq<char>, Seq<char>),
>
    decreases v.len(),
{
    if v.len() == 0 {
        seq![]
    } else {
        let rest = manifest_of(v.drop_last(), ids);
        let d = v.last();
        if ids.contains_key(d.id@) {
            rest.push((ids[d.id@]@, d.title@))
        } else {
            rest
        }
    }
}

/// What a document manifest says.
pub open spec fn manifest_view(v: Seq<DocumentManifestEntry>) -> Seq<(Seq<char>, Seq<char>)> {
    v.map_values(|e: DocumentManifestEntry| (e.new_id@, e.title@))
}

fn document_manifest(v: &Vec<TemplateDocument>, ids: &StrMap<String>) -> (r: Vec<
    DocumentManifestEntry,
>)
    ensures
        manifest_view(r@) == manifest_of(v@, ids@),
{
    let mut out: Vec<DocumentManifestEntry> = Vec::new();
    let mut i: usize = 0;
    assert(v@.take(0) =~= seq![]);
    assert(manifest_view(out@) =~= seq![]);
    while i < v.len()
        invariant
            i <= v@.len(),
            manifest_view(out@) == manifest_of(v@.take(i as int), ids@),
        decreases v@.len() - i,
    {
        let ghost before = out@;
        assert(v@.take(i + 1).drop_last() =~= v@.take(i as int));
        if let Some(new_id) = ids.get(v[i].id.as_str()) {
            out.push(DocumentManifestEntry { new_id: new_id.clone(), title: v[i].title.clone() });
            assert(manifest_view(out@) =~= manifest_view(before).push(
                (new_id@, v@[i as int].title@),
            ));
        }
        i = i + 1;
    }
    assert(v@.take(v@.len() as int) =~= v@);
    out
}

/// What an attachment manifest says: old id, new id, file name, content type and
/// size.
pub open spec fn attachment_entry(e: AttachmentManifestEntry) -> (
    Seq<char>,
    Seq<char>,
    Seq<char>,
    Seq<char>,
    i64,
) {
    (e.old_id@, e.new_id@, e.filename@, e.content_type@, e.size_bytes)
}

pub open spec fn attachment_manifest_view(v: Seq<AttachmentManifestEntry>) -> Seq<
    (Seq<char>, Seq<char>, Seq<char>, Seq<char>, i64),
> {
    v.map_values(|e: AttachmentManifestEntry| attachment_entry(e))
}

/// The attachments that have a new id.
pub open spec fn attachment_manifest_of(
    v: Seq<TemplateAttachment>,
    ids: Map<Seq<char>, String>,
) -> Seq<(Seq<char>, Seq<char>, Seq<char>, Seq<char>, i64)>
    decreases v.len(),
{
    if v.len() == 0 {
        seq![]
    } else {
        let rest = attachment_manifest_of(v.drop_last(), ids);
        let a = v.last();
        if ids.contains_key(a.id@) {
            rest.push((a.id@, ids[a.id@]@, a.filename@, a.content_type@, a.size_bytes))
        } else {
            rest
        }
    }
}

fn attachment_manifest(v: &Vec<TemplateAttachment>, ids: &StrMap<String>) -> (r: Vec<
    AttachmentManifestEntry,
>)
    ensures
        attachment_manifest_view(r@) == attachment_manifest_of(v@, ids@),
{
    let mut out: Vec<AttachmentManifestEntry> = Vec::new();
    let mut i: usize = 0;
    assert(v@.take(0) =~= seq![]);
    assert(attachment_manifest_view(out@) =~= seq![]);
    while i < v.len()
        invariant
            i <= v@.len(),
            attachment_manifest_view(out@) == attachment_manifest_of(v@.take(i as int), ids@),
        decreases v@.len() - i,
    {
        let ghost before = out@;
        assert(v@.take(i + 1).drop_last() =~= v@.take(i as int));
        let a = &v[i];
        if let Some(new_id) = ids.get(a.id.as_str()) {
            let e = AttachmentManifestEntry {
                old_id: a.id.clone(),
                new_id: new_id.clone(),
                filename: a.filename.clone(),
                content_type: a.content_type.clone(),
                size_bytes: a.size_bytes,
            };
            let ghost ev = attachment_entry(e);
            out.push(e);
            assert(attachment_manifest_view(out@) =~= attachment_manifest_view(before).push(ev));
        }
        i = i + 1;
    }
    assert(v@.take(v@.len() as int) =~= v@);
    out
}

// ---------------------------------------------------------------------------
// Instantiation
// ---------------------------------------------------------------------------

/// What the space document of an instantiated template holds.
pub open spec fn space_doc_is(
    content: TemplateContent,
    prefix: Option<Seq<char>>,
    s: Setting,
    doc_ids: Map<Seq<char>, String>,
    doc: Doc,
) -> bool {
    let roots = ydoc::doc_roots(doc);
    &&& ydoc::dict_under(roots, "config"@) == config_tree(content, s.start, prefix)
    &&& ydoc::dict_under(roots, "items"@) == items::items_tree(content.items@, s)
    &&& ydoc::list_under(roots, "items_order"@) == items::item_ids(content.items@)
    &&& ydoc::dict_under(roots, "documents"@) == items::documents_tree(
        content.documents@,
        doc_ids,
        s.created_by,
        s.now,
    )
    &&& ydoc::list_under(roots, "documents_order"@) == items::document_ids(
        content.documents@,
        doc_ids,
    )
    &&& ydoc::fragment_under(roots, "description"@) == overview_of(content, s.shown)
}

/// The overview of the space, where the template has one.
pub open spec fn overview_of(
    content: TemplateContent,
    shown: Map<Seq<char>, Vec<XmlIn>>,
) -> Option<Seq<XmlTree>> {
    match content.overview_yjs {
        Some(b) => Some(blob::blob_nodes(b@, shown)),
        None => None,
    }
}

/// What an instantiation gives, for given new ids, a given time and what was taken from
/// the blobs.
pub open spec fn instantiated(
    content: TemplateContent,
    prefix: Option<Seq<char>>,
    s: Setting,
    pairs: Seq<(String, String)>,
    doc_ids: Map<Seq<char>, String>,
    r: InstantiationResult,
) -> bool {
    &&& blobs_shown(content, pairs, s.shown)
    &&& space_doc_is(content, prefix, s, doc_ids, r.space_doc)
    &&& documents_loaded(content.documents@, doc_ids, pairs, r.document_docs@)
    &&& manifest_view(r.document_manifest@) == manifest_of(content.documents@, doc_ids)
    &&& attachment_manifest_view(r.attachment_manifest@) == attachment_manifest_of(
        content.attachments@,
        s.attachment_ids,
    )
    &&& r.comments_doc is Some <==> items::any_comments(content.items@)
    &&& r.comments_doc matches Some(doc) ==> {
        &&& ydoc::dict_under(ydoc::doc_roots(doc), "threads"@) == items::threads_tree(
            content.items@,
            s.start,
            s.shown,
        )
        &&& ydoc::dict_under(ydoc::doc_roots(doc), "threads_order"@) == items::threads_order(
            content.items@,
        )
    }
}

/// The names of the roots are different.
pub(crate) proof fn lemma_root_names()
    ensures
        "config"@ != "items"@,
        "config"@ != "items_order"@,
        "config"@ != "documents"@,
        "config"@ != "documents_order"@,
        "config"@ != "description"@,
        "items"@ != "items_order"@,
        "items"@ != "documents"@,
        "items"@ != "documents_order"@,
        "items"@ != "description"@,
        "items_order"@ != "documents"@,
        "items_order"@ != "documents_order"@,
        "items_order"@ != "description"@,
        "documents"@ != "documents_order"@,
        "documents"@ != "description"@,
        "documents_order"@ != "description"@,
{
    reveal_strlit("config");
    reveal_strlit("items");
    reveal_strlit("items_order");
    reveal_strlit("documents");
    reveal_strlit("documents_order");
    reveal_strlit("description");
    assert("config"@.len() == 6);
    assert("items"@.len() == 5);
    assert("items_order"@.len() == 11);
    assert("documents"@.len() == 9);
    assert("documents_order"@.len() == 15);
    assert("description"@.len() == 11);
    assert("items_order"@[0] != "description"@[0]);
}

/// The space document for given entries.
pub(crate) fn fill_space_doc(
    config: Vec<(String, In)>,
    items: (Vec<(String, In)>, Vec<In>),
    documents: (Vec<(String, In)>, Vec<In>),
    overview: Option<Vec<XmlIn>>,
) -> (r: Doc)
    ensures
        ({
            let roots = ydoc::doc_roots(r);
            &&& ydoc::dict_under(roots, "config"@) == ydoc::entries_tree(config@)
            &&& ydoc::dict_under(roots, "items"@) == ydoc::entries_tree(items.0@)
            &&& ydoc::list_under(roots, "items_order"@) == ydoc::ins_tree(items.1@)
            &&& ydoc::dict_under(roots, "documents"@) == ydoc::entries_tree(documents.0@)
            &&& ydoc::list_under(roots, "documents_order"@) == ydoc::ins_tree(documents.1@)
            &&& ydoc::fragment_under(roots, "description"@) == (match overview {
                Some(v) => Some(ydoc::xml_ins_tree(v@)),
                None => None,
            })
        }),
{
    proof {
        lemma_root_names();
    }
    let mut doc = ydoc::new_doc();
    ydoc::put_entries(&mut doc, "config", config);
    ydoc::put_entries(&mut doc, "items", items.0);
    ydoc::push_items(&mut doc, "items_order", items.1);
    ydoc::put_entries(&mut doc, "documents", documents.0);
    ydoc::push_items(&mut doc, "documents_order", documents.1);
    proof {
        assert(items.1@.len() == 0 ==> ydoc::ins_tree(items.1@) =~= seq![]);
        assert(documents.1@.len() == 0 ==> ydoc::ins_tree(documents.1@) =~= seq![]);
    }
    match overview {
        Some(nodes) => {
            ydoc::push_nodes(&mut doc, "description", nodes);
        },
        None => {},
    }
    doc
}

/// Instantiates a template with given new ids for its documents and attachments,
/// at a given time.
pub fn instantiate_with(
    content: &TemplateContent,
    start_date: Date,
    short_id_prefix: Option<&str>,
    created_by: &str,
    new_space_id: Option<&str>,
    now: &str,
    doc_ids: &StrMap<String>,
    attachment_ids: &StrMap<String>,
) -> (r: InstantiationResult)
    requires
        dates_ok(*content, start_date),
        has_blobs(*content) ==> ids_ok(*content, opt_str(new_space_id)),
        doc_ids_for(content.documents@, doc_ids@),
        attachment_ids_for(content.attachments@, attachment_ids@),
        uuid_values(doc_ids@),
        uuid_values(attachment_ids@),
    ensures
        exists|pairs: Seq<(String, String)>, shown: Map<Seq<char>, Vec<XmlIn>>|
            #[trigger] instance_with(
                *content,
                start_date,
                opt_str(short_id_prefix),
                created_by@,
                opt_str(new_space_id),
                r,
                now@,
                doc_ids@,
                attachment_ids@,
                pairs,
                shown,
            ),
{
    let uuid_map = blob_uuid_map(content, new_space_id, doc_ids, attachment_ids);
    let pairs_of = uuid_map.entries();
    let ghost pairs = uuid_map.pairs();
    let shown = show_blobs(content, &uuid_map);
    let ghost s = setting(*content, start_date, created_by@, now@, shown@, attachment_ids@);
    proof {
        assert forall|i: int| 0 <= i < content.items@.len() implies items::comments_ok(
            #[trigger] content.items@[i],
            start_date,
        ) by {
            assert(comment_times_ok(content.items@[i], start_date));
        }
    }
    let config = build_config(content, &start_date, short_id_prefix);
    let items = items::build_items(
        content,
        &start_date,
        created_by,
        now,
        &shown,
        attachment_ids,
        Ghost(s),
    );
    let documents = items::build_documents(&content.documents, created_by, now, doc_ids);
    let overview = match &content.overview_yjs {
        Some(b) => Some(blob::nodes_of_blob(b.as_str(), &shown)),
        None => None,
    };
    let space_doc = fill_space_doc(config, items, documents, overview);
    let document_docs = load_documents(&content.documents, doc_ids, &uuid_map);
    let document_manifest = document_manifest(&content.documents, doc_ids);
    let attachment_manifest = attachment_manifest(&content.attachments, attachment_ids);
    let comments_doc = items::build_comments_doc(&content.items, &start_date, &shown);
    let r = InstantiationResult {
        space_doc,
        document_docs,
        document_manifest,
        attachment_manifest,
        comments_doc,
    };
    proof {
        assert(str_map::map_of(pairs) == uuid_map@);
        assert(instantiated(*content, opt_str(short_id_prefix), s, pairs, doc_ids@, r));
        assert(instance_with(
            *content,
            start_date,
            opt_str(short_id_prefix),
            created_by@,
            opt_str(new_space_id),
            r,
            now@,
            doc_ids@,
            attachment_ids@,
            pairs,
            shown@,
        ));
    }
    r
}

/// The setting of an instantiation.
pub open spec fn setting(
    content: TemplateContent,
    start: Date,
    created_by: Seq<char>,
    now: Seq<char>,
    shown: Map<Seq<char>, Vec<XmlIn>>,
    attachment_ids: Map<Seq<char>, String>,
) -> Setting {
    Setting {
        start,
        created_by,
        now,
        shown,
        attachments: content.attachments@,
        attachment_ids,
    }
}

/// What holds of an instantiation, whatever the new ids and the time are, and whatever
/// texts were read where a blob does not fix them. The new ids are random UUIDs, and the
/// time is an instant.
pub open spec fn is_instance(
    content: TemplateContent,
    start: Date,
    prefix: Option<Seq<char>>,
    created_by: Seq<char>,
    new_space: Option<Seq<char>>,
    r: InstantiationResult,
) -> bool {
    exists|
        now: Seq<char>,
        now_ms: int,
        doc_ids: Map<Seq<char>, String>,
        attachment_ids: Map<Seq<char>, String>,
        pairs: Seq<(String, String)>,
        shown: Map<Seq<char>, Vec<XmlIn>>,
    |
        {
            &&& #[trigger] calendar::one_instant(now, now_ms)
            &&& random_values(doc_ids)
            &&& random_values(attachment_ids)
            &&& #[trigger] instance_with(
                content,
                start,
                prefix,
                created_by,
                new_space,
                r,
                now,
                doc_ids,
                attachment_ids,
                pairs,
                shown,
            )
        }
}

/// What holds of an instantiation with given new ids and a given time, where `pairs` are
/// the UUIDs to replace in blobs, and `shown` is what was taken from the blobs.
pub open spec fn instance_with(
    content: TemplateContent,
    start: Date,
    prefix: Option<Seq<char>>,
    created_by: Seq<char>,
    new_space: Option<Seq<char>>,
    r: InstantiationResult,
    now: Seq<char>,
    doc_ids: Map<Seq<char>, String>,
    attachment_ids: Map<Seq<char>, String>,
    pairs: Seq<(String, String)>,
    shown: Map<Seq<char>, Vec<XmlIn>>,
) -> bool {
    &&& doc_ids_for(content.documents@, doc_ids)
    &&& attachment_ids_for(content.attachments@, attachment_ids)
    &&& uuid_values(doc_ids)
    &&& uuid_values(attachment_ids)
    &&& str_map::unique_keys(pairs)
    &&& replaces(
        str_map::map_of(pairs),
        doc_ids,
        attachment_ids,
        space_pair(content, new_space),
    )
    &&& instantiated(
        content,
        prefix,
        setting(content, start, created_by, now, shown, attachment_ids),
        pairs,
        doc_ids,
        r,
    )
}

/// Instantiates a template into Yjs documents.
///
/// `start_date` is the day from which date offsets count. `short_id_prefix`
/// overrides the prefix of the template. `created_by` is the user who creates the
/// space. `new_space_id`, together with the template's source space, rewrites the
/// inline attachment URLs in the blobs; without either, spaces are not rewritten.
///
/// Documents and attachments get fresh UUIDs.
pub fn instantiate_template(
    content: &TemplateContent,
    start_date: Date,
    short_id_prefix: Option<&str>,
    created_by: &str,
    new_space_id: Option<&str>,
) -> (r: InstantiationResult)
    requires
        dates_ok(*content, start_date),
        has_blobs(*content) ==> ids_ok(*content, opt_str(new_space_id)),
    ensures
        is_instance(
            *content,
            start_date,
            opt_str(short_id_prefix),
            created_by@,
            opt_str(new_space_id),
            r,
        ),
{
    let doc_ids = new_doc_ids(&content.documents);
    let attachment_ids = new_attachment_ids(&content.attachments);
    let (now, now_ms) = calendar::now();
    let r = instantiate_with(
        content,
        start_date,
        short_id_prefix,
        created_by,
        new_space_id,
        now.as_str(),
        &doc_ids,
        &attachment_ids,
    );
    proof {
        assert(calendar::one_instant(now@, now_ms as int));
    }
    r
}

fn date_exists(start: &Date, offset: Option<i64>) -> (r: bool)
    ensures
        r == items::date_ok(*start, offset),
{
    match offset {
        Some(n) => calendar::add_days(start, n).is_some(),
        None => true,
    }
}

fn milestones_exist(m: &TemplateMilestones, start: &Date) -> (r: bool)
    ensures
        r == milestones_ok(*m, *start),
{
    let mut i: usize = 0;
    while i < m.order.len()
        invariant
            i <= m.order@.len(),
            forall|k: int|
                0 <= k < i && m.definitions@.contains_key((#[trigger] m.order@[k])@)
                    ==> items::date_ok(*start, m.definitions@[m.order@[k]@].offset_days),
        decreases m.order@.len() - i,
    {
        if let Some(d) = m.definitions.get(m.order[i].as_str()) {
            if !date_exists(start, d.offset_days) {
                assert(!items::date_ok(*start, m.definitions@[m.order@[i as int]@].offset_days));
                return false;
            }
        }
        i = i + 1;
    }
    true
}

fn comment_times_exist(t: &TemplateItem, start: &Date) -> (r: bool)
    ensures
        r == comment_times_ok(*t, *start),
{
    let mut j: usize = 0;
    while j < t.comments.len()
        invariant
            j <= t.comments@.len(),
            forall|k: int|
                0 <= k < j ==> start.plus_seconds(
                    (#[trigger] t.comments@[k]).created_at_offset_seconds as int,
                ) is Some,
        decreases t.comments@.len() - j,
    {
        if calendar::add_seconds(start, t.comments[j].created_at_offset_seconds).is_none() {
            assert(start.plus_seconds(
                t.comments@[j as int].created_at_offset_seconds as int,
            ) is None);
            return false;
        }
        j = j + 1;
    }
    true
}

/// Whether all dates of the template exist, counted from the start.
pub fn dates_exist(content: &TemplateContent, start: Date) -> (r: bool)
    ensures
        r == dates_ok(*content, start),
{
    if !milestones_exist(&content.milestones, &start) {
        return false;
    }
    let mut i: usize = 0;
    while i < content.items.len()
        invariant
            i <= content.items@.len(),
            milestones_ok(content.milestones, start),
            forall|k: int|
                0 <= k < i ==> {
                    &&& items::date_ok(start, (#[trigger] content.items@[k]).due_date_offset_days)
                    &&& items::date_ok(start, content.items@[k].start_date_offset_days)
                    &&& comment_times_ok(content.items@[k], start)
                },
        decreases content.items@.len() - i,
    {
        let t = &content.items[i];
        if !date_exists(&start, t.due_date_offset_days) || !date_exists(
            &start,
            t.start_date_offset_days,
        ) || !comment_times_exist(t, &start) {
            assert(!(items::date_ok(start, content.items@[i as int].due_date_offset_days)
                && items::date_ok(start, content.items@[i as int].start_date_offset_days)
                && comment_times_ok(content.items@[i as int], start)));
            return false;
        }
        i = i + 1;
    }
    true
}

/// Instantiates a template, where all its dates exist and the ids to replace in its
/// blobs have the length of a UUID.
pub fn try_instantiate_template(
    content: &TemplateContent,
    start_date: Date,
    short_id_prefix: Option<&str>,
    created_by: &str,
    new_space_id: Option<&str>,
) -> (r: Option<InstantiationResult>)
    ensures
        r is Some <==> dates_ok(*content, start_date) && (has_blobs(*content) ==> ids_ok(
            *content,
            opt_str(new_space_id),
        )),
        r matches Some(i) ==> is_instance(
            *content,
            start_date,
            opt_str(short_id_prefix),
            created_by@,
            opt_str(new_space_id),
            i,
        ),
{
    if dates_exist(content, start_date) && (ids_fit(content, new_space_id) || !any_blob(content)) {
        Some(
            instantiate_template(content, start_date, short_id_prefix, created_by, new_space_id),
        )
    } else {
        None
    }
}

} // verus!
