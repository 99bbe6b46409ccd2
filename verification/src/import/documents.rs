//! The documents of an imported space.

use vstd::prelude::*;
use yrs::{Doc, In};

use crate::export::types::{ExportDocument, ExportItem, ExportMilestoneDef};
use crate::import::items::{self, Setting, Surroundings};
use crate::str_map::StrMap;
use crate::template::blob;
use crate::template::config::{self, put, put_flag, put_opt, put_str};
use crate::template::instantiator::{self, DocumentManifestEntry};
use crate::text;
use crate::ydoc::{self, YTree};

verus! {

/// What the links of a document can lead to.
pub struct Anchors {
    /// The new ids of the documents.
    pub doc_ids: Map<Seq<char>, String>,
    pub items: Seq<ExportItem>,
    pub milestones: Map<Seq<char>, ExportMilestoneDef>,
}

/// Whether there is an item with the id.
pub open spec fn has_item(v: Seq<ExportItem>, id: Seq<char>) -> bool {
    exists|i: int| 0 <= i < v.len() && (#[trigger] v[i]).id@ == id
}

/// The text, if it is there and `ok` holds.
pub open spec fn text_if(o: Option<String>, ok: bool) -> Option<Seq<char>> {
    match o {
        Some(s) => if ok {
            Some(s@)
        } else {
            None
        },
        None => None,
    }
}

/// The parent item of a document, if there is such an item.
pub open spec fn parent_item(d: ExportDocument, a: Anchors) -> Option<Seq<char>> {
    text_if(d.parent_item_id, has_item(a.items, text_of(d.parent_item_id)))
}

/// The parent milestone of a document, if there is such a milestone.
pub open spec fn parent_milestone(d: ExportDocument, a: Anchors) -> Option<Seq<char>> {
    text_if(d.parent_milestone_id, a.milestones.contains_key(text_of(d.parent_milestone_id)))
}

pub open spec fn text_of(o: Option<String>) -> Seq<char> {
    match o {
        Some(s) => s@,
        None => seq![],
    }
}

/// The new id of the document from which this one was forked.
pub open spec fn fork_source(d: ExportDocument, a: Anchors) -> Option<Seq<char>> {
    match d.forked_from {
        Some(f) => if a.doc_ids.contains_key(f@) {
            Some(a.doc_ids[f@]@)
        } else {
            None
        },
        None => None,
    }
}

/// The entries with the time of archiving, of what is archived.
pub open spec fn with_archive_time(m: Map<Seq<char>, YTree>, archived: bool, at: Option<Seq<char>>) -> Map<
    Seq<char>,
    YTree,
> {
    if archived {
        config::with_opt(m.insert("archived"@, ydoc::ybool(true)), "archived_at"@, at)
    } else {
        m
    }
}

/// The metadata of a document of the imported space, under its new id.
pub open spec fn document_tree(
    d: ExportDocument,
    new_id: Seq<char>,
    s: Setting,
    a: Anchors,
) -> YTree {
    let m = Map::empty().insert("id"@, ydoc::ystr(new_id)).insert("title"@, ydoc::ystr(d.title@)).insert(
        "labels"@,
        config::str_map_tree(d.labels@),
    );
    let m = with_archive_time(m, d.archived, text::opt_text(d.archived_at));
    let m = items::with_principals(
        m,
        "owners"@,
        items::mapped_ids(d.owner_user_ids@, s.users),
        items::mapped_ids(d.owner_team_ids@, s.teams),
    );
    let m = config::with_opt(m, "parent_item_id"@, parent_item(d, a));
    let m = config::with_opt(m, "parent_milestone_id"@, parent_milestone(d, a));
    let m = items::with_number(m, "review_cadence_days"@, d.review_cadence_days);
    let m = config::with_opt(m, "last_reviewed_at"@, text::opt_text(d.last_reviewed_at));
    let m = config::with_flag(m, "is_template"@, d.is_template);
    let m = config::with_opt(m, "forked_from"@, fork_source(d, a));
    YTree::Dict(
        m.insert(
            "created_by"@,
            ydoc::ystr(items::creator(d.created_by, s.users, s.importer)),
        ).insert("created_at"@, ydoc::ystr(items::text_or(d.created_at, s.now))).insert(
            "updated_at"@,
            ydoc::ystr(items::text_or(d.updated_at, s.now)),
        ),
    )
}

/// The documents that have a new id, by that id.
pub open spec fn documents_tree(v: Seq<ExportDocument>, s: Setting, a: Anchors) -> Map<
    Seq<char>,
    YTree,
>
    decreases v.len(),
{
    if v.len() == 0 {
        Map::empty()
    } else {
        let rest = documents_tree(v.drop_last(), s, a);
        let k = v.last().id@;
        if a.doc_ids.contains_key(k) {
            rest.insert(a.doc_ids[k]@, document_tree(v.last(), a.doc_ids[k]@, s, a))
        } else {
            rest
        }
    }
}

/// The new ids of the documents in order.
pub open spec fn document_ids(v: Seq<ExportDocument>, ids: Map<Seq<char>, String>) -> Seq<YTree>
    decreases v.len(),
{
    if v.len() == 0 {
        seq![]
    } else {
        let rest = document_ids(v.drop_last(), ids);
        let k = v.last().id@;
        if ids.contains_key(k) {
            rest.push(ydoc::ystr(ids[k]@))
        } else {
            rest
        }
    }
}

pub(crate) fn item_exists(v: &Vec<ExportItem>, id: &str) -> (r: bool)
    ensures
        r == has_item(v@, id@),
{
    let mut i: usize = 0;
    while i < v.len()
        invariant
            i <= v@.len(),
            forall|k: int| 0 <= k < i ==> (#[trigger] v@[k]).id@ != id@,
        decreases v@.len() - i,
    {
        if text::str_eq(v[i].id.as_str(), id) {
            assert(v@[i as int].id@ == id@);
            return true;
        }
        i = i + 1;
    }
    false
}

fn document_in(
    d: &ExportDocument,
    new_id: &str,
    s: &Surroundings<'_>,
    doc_ids: &StrMap<String>,
    all_items: &Vec<ExportItem>,
    milestones: &StrMap<ExportMilestoneDef>,
) -> (r: In)
    ensures
        ydoc::in_tree(r) == document_tree(
            *d,
            new_id@,
            s.setting(),
            (Anchors { doc_ids: doc_ids@, items: all_items@, milestones: milestones@ }),
        ),
{
    let mut e: Vec<(String, In)> = Vec::new();
    put_str(&mut e, "id", new_id);
    put_str(&mut e, "title", d.title.as_str());
    put(&mut e, "labels", config::str_map_in(&d.labels));
    if d.archived {
        put(&mut e, "archived", ydoc::in_bool(true));
        put_opt(&mut e, "archived_at", &d.archived_at);
    }
    let users = items::map_ids(&d.owner_user_ids, s.users);
    let teams = items::map_ids(&d.owner_team_ids, s.teams);
    items::put_principals(&mut e, "owners", &users, &teams);
    if let Some(p) = &d.parent_item_id {
        if item_exists(all_items, p.as_str()) {
            put_str(&mut e, "parent_item_id", p.as_str());
        }
    }
    if let Some(p) = &d.parent_milestone_id {
        if milestones.contains_key(p.as_str()) {
            put_str(&mut e, "parent_milestone_id", p.as_str());
        }
    }
    if let Some(n) = d.review_cadence_days {
        put(&mut e, "review_cadence_days", ydoc::in_number(n));
    }
    put_opt(&mut e, "last_reviewed_at", &d.last_reviewed_at);
    put_flag(&mut e, "is_template", d.is_template);
    if let Some(f) = &d.forked_from {
        if let Some(new) = doc_ids.get(f.as_str()) {
            put_str(&mut e, "forked_from", new.as_str());
        }
    }
    let created_by = items::mapped_creator_or_importer(&d.created_by, s.users, s.importer);
    put_str(&mut e, "created_by", created_by);
    put_str(&mut e, "created_at", items::text_or_else(&d.created_at, s.now));
    put_str(&mut e, "updated_at", items::text_or_else(&d.updated_at, s.now));
    ydoc::in_dict(e)
}

/// The metadata of the documents as values to insert, by new id, and the new ids
/// in order. Owners go through the mapped users and teams; a parent that is not in
/// the export and a fork source that is not there are left out.
pub(crate) fn build_documents_metadata(
    v: &Vec<ExportDocument>,
    s: &Surroundings<'_>,
    doc_ids: &StrMap<String>,
    all_items: &Vec<ExportItem>,
    milestones: &StrMap<ExportMilestoneDef>,
) -> (r: (Vec<(String, In)>, Vec<In>))
    ensures
        ydoc::entries_tree(r.0@) == documents_tree(
            v@,
            s.setting(),
            (Anchors { doc_ids: doc_ids@, items: all_items@, milestones: milestones@ }),
        ),
        ydoc::ins_tree(r.1@) == document_ids(v@, doc_ids@),
{
    let ghost a = Anchors { doc_ids: doc_ids@, items: all_items@, milestones: milestones@ };
    let mut entries: Vec<(String, In)> = Vec::new();
    let mut order: Vec<In> = Vec::new();
    let mut i: usize = 0;
    assert(v@.take(0) =~= seq![]);
    assert(ydoc::ins_tree(order@) =~= seq![]);
    while i < v.len()
        invariant
            i <= v@.len(),
            a == (Anchors { doc_ids: doc_ids@, items: all_items@, milestones: milestones@ }),
            ydoc::entries_tree(entries@) == documents_tree(v@.take(i as int), s.setting(), a),
            ydoc::ins_tree(order@) == document_ids(v@.take(i as int), doc_ids@),
        decreases v@.len() - i,
    {
        let ghost before = order@;
        assert(v@.take(i + 1).drop_last() =~= v@.take(i as int));
        if let Some(new_id) = doc_ids.get(v[i].id.as_str()) {
            let value = document_in(&v[i], new_id.as_str(), s, doc_ids, all_items, milestones);
            put(&mut entries, new_id.as_str(), value);
            order.push(ydoc::in_str(new_id.as_str()));
            assert(ydoc::ins_tree(order@) =~= ydoc::ins_tree(before).push(ydoc::ystr(new_id@)));
        }
        i = i + 1;
    }
    assert(v@.take(v@.len() as int) =~= v@);
    (entries, order)
}

// ---------------------------------------------------------------------------
// Content and manifest
// ---------------------------------------------------------------------------

/// The update in the content of a document, where there is one that can be
/// loaded.
pub open spec fn document_update(b64: Option<Seq<char>>, pairs: Seq<(String, String)>) -> Option<
    Seq<u8>,
> {
    match b64 {
        None => None,
        Some(b) => match blob::blob_update(b, pairs) {
            Some(u) => if ydoc::is_update(u) {
                Some(u)
            } else {
                None
            },
            None => None,
        },
    }
}

/// Whether `out` holds, in order, the content of each document that has any, under
/// its new id.
pub open spec fn documents_loaded(
    v: Seq<ExportDocument>,
    ids: Map<Seq<char>, String>,
    pairs: Seq<(String, String)>,
    out: Seq<(String, Doc)>,
) -> bool
    decreases v.len(),
{
    if v.len() == 0 {
        out.len() == 0
    } else {
        let d = v.last();
        match document_update(text::opt_text(d.content_yjs), pairs) {
            Some(u) => if ids.contains_key(d.id@) {
                &&& out.len() > 0
                &&& out.last().0@ == ids[d.id@]@
                &&& instantiator::holds_update(out.last().1, u)
                &&& documents_loaded(v.drop_last(), ids, pairs, out.drop_last())
            } else {
                documents_loaded(v.drop_last(), ids, pairs, out)
            },
            None => documents_loaded(v.drop_last(), ids, pairs, out),
        }
    }
}

pub(crate) fn load_documents(
    v: &Vec<ExportDocument>,
    ids: &StrMap<String>,
    uuid_map: &StrMap<String>,
) -> (r: Vec<(String, Doc)>)
    requires
        forall|i: int|
            0 <= i < v@.len() && blob::decodes((#[trigger] v@[i]).content_yjs) ==> blob::uuid_pairs(
                uuid_map.pairs(),
            ),
    ensures
        documents_loaded(v@, ids@, uuid_map.pairs(), r@),
{
    let ghost pairs = uuid_map.pairs();
    let mut out: Vec<(String, Doc)> = Vec::new();
    let mut i: usize = 0;
    assert(v@.take(0) =~= seq![]);
    while i < v.len()
        invariant
            i <= v@.len(),
            pairs == uuid_map.pairs(),
            forall|i: int|
                0 <= i < v@.len() && blob::decodes((#[trigger] v@[i]).content_yjs) ==> blob::uuid_pairs(
                    pairs,
                ),
            documents_loaded(v@.take(i as int), ids@, pairs, out@),
        decreases v@.len() - i,
    {
        let ghost before = out@;
        assert(v@.take(i + 1).drop_last() =~= v@.take(i as int));
        if let Some(b) = &v[i].content_yjs {
            if let Some(new_id) = ids.get(v[i].id.as_str()) {
                if let Some(doc) = blob::decode_base64_to_doc(b.as_str(), uuid_map) {
                    out.push((new_id.clone(), doc));
                    assert(out@.drop_last() =~= before);
                }
            }
        }
        i = i + 1;
    }
    assert(v@.take(v@.len() as int) =~= v@);
    out
}

/// The new id and the title of each document that has a new id.
pub open spec fn manifest_of(v: Seq<ExportDocument>, ids: Map<Seq<char>, String>) -> Seq<
    (Seq<char>, Seq<char>),
>
    decreases v.len(),
{
    if v.len() == 0 {
        seq![]
    } else {
        let rest = manifest_of(v.drop_last(), ids);
        let d = v.last();
        if ids.contains_key(d.id@) {
            rest.push((ids[d.id@]@, d.title@))
        } else {
            rest
        }
    }
}

pub(crate) fn document_manifest(v: &Vec<ExportDocument>, ids: &StrMap<String>) -> (r: Vec<
    DocumentManifestEntry,
>)
    ensures
        instantiator::manifest_view(r@) == manifest_of(v@, ids@),
{
    let mut out: Vec<DocumentManifestEntry> = Vec::new();
    let mut i: usize = 0;
    assert(v@.take(0) =~= seq![]);
    assert(instantiator::manifest_view(out@) =~= seq![]);
    while i < v.len()
        invariant
            i <= v@.len(),
            instantiator::manifest_view(out@) == manifest_of(v@.take(i as int), ids@),
        decreases v@.len() - i,
    {
        let ghost before = out@;
        assert(v@.take(i + 1).drop_last() =~= v@.take(i as int));
        if let Some(new_id) = ids.get(v[i].id.as_str()) {
            out.push(DocumentManifestEntry { new_id: new_id.clone(), title: v[i].title.clone() });
            assert(instantiator::manifest_view(out@) =~= instantiator::manifest_view(before).push(
                (new_id@, v@[i as int].title@),
            ));
        }
        i = i + 1;
    }
    assert(v@.take(v@.len() as int) =~= v@);
    out
}

} // verus!
