//! The items, documents and comments of a template.

use vstd::prelude::*;
use yrs::types::xml::XmlIn;
use yrs::{Doc, In};

use crate::calendar::{self, Date};
use crate::codec;
use crate::str_map::StrMap;
use crate::template::blob;
use crate::template::config::{self, put, put_opt, put_str};
use crate::template::types::{
    TemplateAttachment, TemplateComment, TemplateContent, TemplateDocument, TemplateItem,
};
use crate::text;
use crate::ydoc::{self, YTree};

verus! {

/// What an instantiation depends on beside the content.
pub struct Setting {
    pub start: Date,
    /// The user who creates the space.
    pub created_by: Seq<char>,
    /// The time of the instantiation.
    pub now: Seq<char>,
    /// The nodes that were taken from the blobs.
    pub shown: Map<Seq<char>, Vec<XmlIn>>,
    /// The attachments of the template.
    pub attachments: Seq<TemplateAttachment>,
    /// The ids of the attachments in the new space, by their id in the template.
    pub attachment_ids: Map<Seq<char>, String>,
}

// ---------------------------------------------------------------------------
// Items
// ---------------------------------------------------------------------------

/// The entries with a date that lies an offset after the start.
pub open spec fn with_date(
    m: Map<Seq<char>, YTree>,
    key: Seq<char>,
    start: Date,
    offset: Option<i64>,
) -> Map<Seq<char>, YTree> {
    match offset {
        Some(n) => match start.plus_days(n as int) {
            Some(s) => m.insert(key, ydoc::ystr(s)),
            None => m,
        },
        None => m,
    }
}

/// Whether the date that lies an offset after the start exists.
pub open spec fn date_ok(start: Date, offset: Option<i64>) -> bool {
    offset matches Some(n) ==> start.plus_days(n as int) is Some
}

/// The last attachment with the given id.
pub open spec fn attachment_with(v: Seq<TemplateAttachment>, id: Seq<char>) -> Option<
    TemplateAttachment,
>
    decreases v.len(),
{
    if v.len() == 0 {
        None
    } else if v.last().id@ == id {
        Some(v.last())
    } else {
        attachment_with(v.drop_last(), id)
    }
}

/// An attachment of an item, under its new id.
pub open spec fn attachment_tree(a: TemplateAttachment, new_id: Seq<char>) -> YTree {
    YTree::Dict(
        Map::empty().insert("id"@, ydoc::ystr(new_id)).insert(
            "filename"@,
            ydoc::ystr(a.filename@),
        ).insert("content_type"@, ydoc::ystr(a.content_type@)).insert(
            "size_bytes"@,
            ydoc::ynumber(a.size_bytes as int),
        ),
    )
}

/// The attachments of an item that are in the template and have a new id.
pub open spec fn attachment_trees(ids: Seq<String>, s: Setting) -> Seq<YTree>
    decreases ids.len(),
{
    if ids.len() == 0 {
        seq![]
    } else {
        let rest = attachment_trees(ids.drop_last(), s);
        match attachment_with(s.attachments, ids.last()@) {
            Some(a) => if s.attachment_ids.contains_key(a.id@) {
                rest.push(attachment_tree(a, s.attachment_ids[a.id@]@))
            } else {
                rest
            },
            None => rest,
        }
    }
}

/// Whether one of the attachments of an item is in the template.
pub open spec fn any_attachment(ids: Seq<String>, v: Seq<TemplateAttachment>) -> bool {
    exists|i: int| 0 <= i < ids.len() && attachment_with(v, (#[trigger] ids[i])@) is Some
}

/// The entries with a fragment from a blob, if there is one.
pub open spec fn with_blob(
    m: Map<Seq<char>, YTree>,
    key: Seq<char>,
    b64: Option<Seq<char>>,
    shown: Map<Seq<char>, Vec<XmlIn>>,
) -> Map<Seq<char>, YTree> {
    match b64 {
        Some(b) => m.insert(key, YTree::Fragment(blob::blob_nodes(b, shown))),
        None => m,
    }
}

/// The entries with an array of strings, if there are any.
pub open spec fn with_strs(m: Map<Seq<char>, YTree>, key: Seq<char>, v: Seq<String>) -> Map<
    Seq<char>,
    YTree,
> {
    if v.len() > 0 {
        m.insert(key, ydoc::ystrs(text::texts(v)))
    } else {
        m
    }
}

/// The entries with the attachments of an item, if any of them is in the template.
pub open spec fn with_attachments(m: Map<Seq<char>, YTree>, ids: Seq<String>, s: Setting) -> Map<
    Seq<char>,
    YTree,
> {
    if any_attachment(ids, s.attachments) {
        m.insert("attachments"@, YTree::List(attachment_trees(ids, s)))
    } else {
        m
    }
}

/// An item of the new space.
pub open spec fn item_tree(t: TemplateItem, s: Setting) -> YTree {
    let m = Map::empty().insert("id"@, ydoc::ystr(t.id@)).insert(
        "title"@,
        ydoc::ystr(t.title@),
    ).insert("labels"@, config::str_map_tree(t.labels@));
    let m = with_date(m, "due_date"@, s.start, t.due_date_offset_days);
    let m = with_date(m, "start_date"@, s.start, t.start_date_offset_days);
    let m = config::with_opt(m, "milestone_id"@, text::opt_text(t.milestone_id));
    let m = config::with_opt(m, "cycle_id"@, text::opt_text(t.cycle_id));
    let m = config::with_opt(m, "parent_id"@, text::opt_text(t.parent_id));
    let m = with_strs(m, "blocked_by"@, t.blocked_by@);
    let m = with_blob(m, "description"@, text::opt_text(t.description_yjs), s.shown);
    let m = with_attachments(m, t.attachment_ids@, s);
    YTree::Dict(
        m.insert("created_by"@, ydoc::ystr(s.created_by)).insert(
            "created_at"@,
            ydoc::ystr(s.now),
        ).insert("updated_at"@, ydoc::ystr(s.now)),
    )
}

/// The items by id.
pub open spec fn items_tree(v: Seq<TemplateItem>, s: Setting) -> Map<Seq<char>, YTree>
    decreases v.len(),
{
    if v.len() == 0 {
        Map::empty()
    } else {
        items_tree(v.drop_last(), s).insert(v.last().id@, item_tree(v.last(), s))
    }
}

/// The ids of the items in order.
pub open spec fn item_ids(v: Seq<TemplateItem>) -> Seq<YTree> {
    v.map_values(|t: TemplateItem| ydoc::ystr(t.id@))
}

/// Every item of a template is in the space under its own id, and nothing else is.
pub proof fn lemma_item_ids_kept(v: Seq<TemplateItem>, s: Setting)
    ensures
        forall|i: int| 0 <= i < v.len() ==> items_tree(v, s).contains_key((#[trigger] v[i]).id@),
        forall|id: Seq<char>| #[trigger]
            items_tree(v, s).contains_key(id) ==> exists|i: int|
                0 <= i < v.len() && (#[trigger] v[i]).id@ == id,
    decreases v.len(),
{
    if v.len() > 0 {
        let before = v.drop_last();
        lemma_item_ids_kept(before, s);
        assert forall|i: int| 0 <= i < v.len() implies items_tree(v, s).contains_key(
            (#[trigger] v[i]).id@,
        ) by {
            if i < before.len() {
                assert(before[i] == v[i]);
            }
        }
        assert forall|id: Seq<char>| #[trigger]
            items_tree(v, s).contains_key(id) implies exists|i: int|
            0 <= i < v.len() && (#[trigger] v[i]).id@ == id by {
            if items_tree(before, s).contains_key(id) {
                let i = choose|i: int| 0 <= i < before.len() && (#[trigger] before[i]).id@ == id;
                assert(v[i] == before[i]);
            } else {
                assert(v[v.len() - 1] == v.last());
            }
        }
    }
}

/// Whether the dates of an item exist.
pub open spec fn item_ok(t: TemplateItem, s: Setting) -> bool {
    &&& date_ok(s.start, t.due_date_offset_days)
    &&& date_ok(s.start, t.start_date_offset_days)
}

pub(crate) fn put_date(e: &mut Vec<(String, In)>, key: &str, start: &Date, offset: Option<i64>)
    requires
        date_ok(*start, offset),
    ensures
        ydoc::entries_tree(final(e)@) == with_date(
            ydoc::entries_tree(old(e)@),
            key@,
            *start,
            offset,
        ),
{
    if let Some(n) = offset {
        if let Some(s) = calendar::add_days(start, n) {
            put_str(e, key, s.as_str());
        }
    }
}

pub(crate) fn put_strs(e: &mut Vec<(String, In)>, key: &str, v: &Vec<String>)
    ensures
        ydoc::entries_tree(final(e)@) == with_strs(ydoc::entries_tree(old(e)@), key@, v@),
{
    if v.len() > 0 {
        put(e, key, config::strs_in(v));
    }
}

pub(crate) fn put_blob(
    e: &mut Vec<(String, In)>,
    key: &str,
    b64: &Option<String>,
    shown: &StrMap<Vec<XmlIn>>,
)
    ensures
        ydoc::entries_tree(final(e)@) == with_blob(
            ydoc::entries_tree(old(e)@),
            key@,
            text::opt_text(*b64),
            shown@,
        ),
{
    if let Some(b) = b64 {
        let nodes = blob::nodes_of_blob(b.as_str(), shown);
        put(e, key, ydoc::in_fragment(nodes));
    }
}

fn find_attachment<'a>(v: &'a Vec<TemplateAttachment>, id: &str) -> (r: Option<
    &'a TemplateAttachment,
>)
    ensures
        match r {
            Some(a) => attachment_with(v@, id@) == Some(*a),
            None => attachment_with(v@, id@) is None,
        },
{
    let mut n: usize = v.len();
    assert(v@.take(n as int) =~= v@);
    while n > 0
        invariant
            n <= v@.len(),
            attachment_with(v@, id@) == attachment_with(v@.take(n as int), id@),
        decreases n,
    {
        assert(v@.take(n as int).drop_last() =~= v@.take(n - 1));
        assert(v@.take(n as int).last() == v@[n - 1]);
        if text::str_eq(v[n - 1].id.as_str(), id) {
            return Some(&v[n - 1]);
        }
        n = n - 1;
    }
    None
}

fn attachment_in(a: &TemplateAttachment, new_id: &str) -> (r: In)
    ensures
        ydoc::in_tree(r) == attachment_tree(*a, new_id@),
{
    let mut e: Vec<(String, In)> = Vec::new();
    put_str(&mut e, "id", new_id);
    put_str(&mut e, "filename", a.filename.as_str());
    put_str(&mut e, "content_type", a.content_type.as_str());
    put(&mut e, "size_bytes", ydoc::in_number(a.size_bytes));
    ydoc::in_dict(e)
}

fn put_attachments(
    e: &mut Vec<(String, In)>,
    ids: &Vec<String>,
    attachments: &Vec<TemplateAttachment>,
    attachment_ids: &StrMap<String>,
    Ghost(s): Ghost<Setting>,
)
    requires
        s.attachments == attachments@,
        s.attachment_ids == attachment_ids@,
    ensures
        ydoc::entries_tree(final(e)@) == (if any_attachment(ids@, s.attachments) {
            ydoc::entries_tree(old(e)@).insert(
                "attachments"@,
                YTree::List(attachment_trees(ids@, s)),
            )
        } else {
            ydoc::entries_tree(old(e)@)
        }),
{
    let mut out: Vec<In> = Vec::new();
    let mut any = false;
    let mut i: usize = 0;
    assert(ids@.take(0) =~= seq![]);
    assert(ydoc::ins_tree(out@) =~= seq![]);
    while i < ids.len()
        invariant
            i <= ids@.len(),
            s.attachments == attachments@,
            s.attachment_ids == attachment_ids@,
            ydoc::ins_tree(out@) == attachment_trees(ids@.take(i as int), s),
            any ==> any_attachment(ids@, s.attachments),
            !any ==> forall|k: int|
                0 <= k < i ==> attachment_with(s.attachments, (#[trigger] ids@[k])@) is None,
        decreases ids@.len() - i,
    {
        let ghost before = out@;
        assert(ids@.take(i + 1).drop_last() =~= ids@.take(i as int));
        if let Some(a) = find_attachment(attachments, ids[i].as_str()) {
            any = true;
            assert(attachment_with(s.attachments, ids@[i as int]@) is Some);
            if let Some(new_id) = attachment_ids.get(a.id.as_str()) {
                let v = attachment_in(a, new_id.as_str());
                out.push(v);
                assert(ydoc::ins_tree(out@) =~= ydoc::ins_tree(before).push(ydoc::in_tree(v)));
            }
        }
        i = i + 1;
    }
    assert(ids@.take(ids@.len() as int) =~= ids@);
    if any {
        put(e, "attachments", ydoc::in_list(out));
    }
}

fn item_in(
    t: &TemplateItem,
    start: &Date,
    created_by: &str,
    now: &str,
    shown: &StrMap<Vec<XmlIn>>,
    attachments: &Vec<TemplateAttachment>,
    attachment_ids: &StrMap<String>,
    Ghost(s): Ghost<Setting>,
) -> (r: In)
    requires
        s == (Setting {
            start: *start,
            created_by: created_by@,
            now: now@,
            shown: shown@,
            attachments: attachments@,
            attachment_ids: attachment_ids@,
        }),
        item_ok(*t, s),
    ensures
        ydoc::in_tree(r) == item_tree(*t, s),
{
    let mut e: Vec<(String, In)> = Vec::new();
    put_str(&mut e, "id", t.id.as_str());
    put_str(&mut e, "title", t.title.as_str());
    put(&mut e, "labels", config::str_map_in(&t.labels));
    put_date(&mut e, "due_date", start, t.due_date_offset_days);
    put_date(&mut e, "start_date", start, t.start_date_offset_days);
    put_opt(&mut e, "milestone_id", &t.milestone_id);
    put_opt(&mut e, "cycle_id", &t.cycle_id);
    put_opt(&mut e, "parent_id", &t.parent_id);
    put_strs(&mut e, "blocked_by", &t.blocked_by);
    put_blob(&mut e, "description", &t.description_yjs, shown);
    put_attachments(&mut e, &t.attachment_ids, attachments, attachment_ids, Ghost(s));
    put_str(&mut e, "created_by", created_by);
    put_str(&mut e, "created_at", now);
    put_str(&mut e, "updated_at", now);
    ydoc::in_dict(e)
}

/// The items of a template as values to insert, by id, and their ids in order.
pub(crate) fn build_items(
    content: &TemplateContent,
    start: &Date,
    created_by: &str,
    now: &str,
    shown: &StrMap<Vec<XmlIn>>,
    attachment_ids: &StrMap<String>,
    Ghost(s): Ghost<Setting>,
) -> (r: (Vec<(String, In)>, Vec<In>))
    requires
        s == (Setting {
            start: *start,
            created_by: created_by@,
            now: now@,
            shown: shown@,
            attachments: content.attachments@,
            attachment_ids: attachment_ids@,
        }),
        forall|i: int| 0 <= i < content.items@.len() ==> item_ok(#[trigger] content.items@[i], s),
    ensures
        ydoc::entries_tree(r.0@) == items_tree(content.items@, s),
        ydoc::ins_tree(r.1@) == item_ids(content.items@),
{
    let ghost all = content.items@;
    let mut entries: Vec<(String, In)> = Vec::new();
    let mut order: Vec<In> = Vec::new();
    let mut i: usize = 0;
    assert(all.take(0) =~= seq![]);
    while i < content.items.len()
        invariant
            i <= all.len(),
            all == content.items@,
            s == (Setting {
                start: *start,
                created_by: created_by@,
                now: now@,
                shown: shown@,
                attachments: content.attachments@,
                attachment_ids: attachment_ids@,
            }),
            forall|i: int| 0 <= i < all.len() ==> item_ok(#[trigger] all[i], s),
            ydoc::entries_tree(entries@) == items_tree(all.take(i as int), s),
            order@.len() == i,
            forall|k: int|
                0 <= k < i ==> ydoc::in_tree(#[trigger] order@[k]) == ydoc::ystr(all[k].id@),
        decreases all.len() - i,
    {
        assert(all.take(i + 1).drop_last() =~= all.take(i as int));
        let t = &content.items[i];
        let v = item_in(
            t,
            start,
            created_by,
            now,
            shown,
            &content.attachments,
            attachment_ids,
            Ghost(s),
        );
        put(&mut entries, t.id.as_str(), v);
        order.push(ydoc::in_str(t.id.as_str()));
        i = i + 1;
    }
    assert(all.take(all.len() as int) =~= all);
    assert(ydoc::ins_tree(order@) =~= item_ids(all));
    (entries, order)
}

// ---------------------------------------------------------------------------
// Documents
// ---------------------------------------------------------------------------

/// A string, or null where there is none.
pub open spec fn str_or_null(v: Option<Seq<char>>) -> YTree {
    match v {
        Some(s) => ydoc::ystr(s),
        None => ydoc::ynull(),
    }
}

/// The owners with the creator in the place of `creator`.
pub open spec fn owner_users(users: Seq<String>, created_by: Seq<char>) -> Seq<Seq<char>> {
    users.map_values(|u: String| owner_user(u, created_by))
}

pub open spec fn owner_user(u: String, created_by: Seq<char>) -> Seq<char> {
    if u@ == "creator"@ {
        created_by
    } else {
        u@
    }
}

/// The metadata of a document of the new space, under its new id.
pub open spec fn document_tree(
    d: TemplateDocument,
    new_id: Seq<char>,
    created_by: Seq<char>,
    now: Seq<char>,
) -> YTree {
    let owners = Map::empty().insert(
        "users"@,
        ydoc::ystrs(owner_users(d.owners_default.users@, created_by)),
    ).insert("teams"@, ydoc::ystrs(text::texts(d.owners_default.teams@)));
    YTree::Dict(
        Map::empty().insert("id"@, ydoc::ystr(new_id)).insert(
            "title"@,
            ydoc::ystr(d.title@),
        ).insert("labels"@, config::str_map_tree(d.labels@)).insert(
            "created_by"@,
            ydoc::ystr(created_by),
        ).insert("created_at"@, ydoc::ystr(now)).insert("updated_at"@, ydoc::ystr(now)).insert(
            "owners"@,
            YTree::Dict(owners),
        ).insert("parent_item_id"@, str_or_null(text::opt_text(d.parent_item_id))).insert(
            "parent_milestone_id"@,
            str_or_null(text::opt_text(d.parent_milestone_id)),
        ).insert(
            "review_cadence_days"@,
            match d.review_cadence_days {
                Some(n) => ydoc::ybig(n as int),
                None => ydoc::ynull(),
            },
        ).insert("last_reviewed_at"@, ydoc::ynull()).insert(
            "is_template"@,
            ydoc::ybool(d.is_template),
        ).insert("forked_from"@, ydoc::ynull()),
    )
}

/// The documents that have a new id, by that id.
pub open spec fn documents_tree(
    v: Seq<TemplateDocument>,
    ids: Map<Seq<char>, String>,
    created_by: Seq<char>,
    now: Seq<char>,
) -> Map<Seq<char>, YTree>
    decreases v.len(),
{
    if v.len() == 0 {
        Map::empty()
    } else {
        let rest = documents_tree(v.drop_last(), ids, created_by, now);
        let k = v.last().id@;
        if ids.contains_key(k) {
            rest.insert(ids[k]@, document_tree(v.last(), ids[k]@, created_by, now))
        } else {
            rest
        }
    }
}

/// The new ids of the documents in order.
pub open spec fn document_ids(v: Seq<TemplateDocument>, ids: Map<Seq<char>, String>) -> Seq<YTree>
    decreases v.len(),
{
    if v.len() == 0 {
        seq![]
    } else {
        let rest = document_ids(v.drop_last(), ids);
        let k = v.last().id@;
        if ids.contains_key(k) {
            rest.push(ydoc::ystr(ids[k]@))
        } else {
            rest
        }
    }
}

fn opt_in(v: &Option<String>) -> (r: In)
    ensures
        ydoc::in_tree(r) == str_or_null(text::opt_text(*v)),
{
    match v {
        Some(s) => ydoc::in_str(s.as_str()),
        None => ydoc::in_null(),
    }
}

fn owners_in(users: &Vec<String>, created_by: &str) -> (r: In)
    ensures
        ydoc::in_tree(r) == ydoc::ystrs(owner_users(users@, created_by@)),
{
    let ghost want = owner_users(users@, created_by@);
    let mut out: Vec<In> = Vec::new();
    let mut i: usize = 0;
    while i < users.len()
        invariant
            i <= users@.len(),
            want == owner_users(users@, created_by@),
            out@.len() == i,
            forall|k: int| 0 <= k < i ==> ydoc::in_tree(#[trigger] out@[k]) == ydoc::ystr(want[k]),
        decreases users@.len() - i,
    {
        if text::str_eq(users[i].as_str(), "creator") {
            out.push(ydoc::in_str(created_by));
        } else {
            out.push(ydoc::in_str(users[i].as_str()));
        }
        i = i + 1;
    }
    assert(ydoc::ins_tree(out@) =~= ydoc::ystrs(want)->List_0);
    ydoc::in_list(out)
}

fn document_in(d: &TemplateDocument, new_id: &str, created_by: &str, now: &str) -> (r: In)
    ensures
        ydoc::in_tree(r) == document_tree(*d, new_id@, created_by@, now@),
{
    let mut e: Vec<(String, In)> = Vec::new();
    put_str(&mut e, "id", new_id);
    put_str(&mut e, "title", d.title.as_str());
    put(&mut e, "labels", config::str_map_in(&d.labels));
    put_str(&mut e, "created_by", created_by);
    put_str(&mut e, "created_at", now);
    put_str(&mut e, "updated_at", now);
    let mut owners: Vec<(String, In)> = Vec::new();
    put(&mut owners, "users", owners_in(&d.owners_default.users, created_by));
    put(&mut owners, "teams", config::strs_in(&d.owners_default.teams));
    put(&mut e, "owners", ydoc::in_dict(owners));
    put(&mut e, "parent_item_id", opt_in(&d.parent_item_id));
    put(&mut e, "parent_milestone_id", opt_in(&d.parent_milestone_id));
    let cadence = match d.review_cadence_days {
        Some(n) => ydoc::in_big(n as i64),
        None => ydoc::in_null(),
    };
    put(&mut e, "review_cadence_days", cadence);
    put(&mut e, "last_reviewed_at", ydoc::in_null());
    put(&mut e, "is_template", ydoc::in_bool(d.is_template));
    put(&mut e, "forked_from", ydoc::in_null());
    ydoc::in_dict(e)
}

/// The metadata of the documents as values to insert, by new id, and the new ids
/// in order.
pub(crate) fn build_documents(
    documents: &Vec<TemplateDocument>,
    created_by: &str,
    now: &str,
    doc_ids: &StrMap<String>,
) -> (r: (Vec<(String, In)>, Vec<In>))
    ensures
        ydoc::entries_tree(r.0@) == documents_tree(documents@, doc_ids@, created_by@, now@),
        ydoc::ins_tree(r.1@) == document_ids(documents@, doc_ids@),
{
    let ghost all = documents@;
    let mut entries: Vec<(String, In)> = Vec::new();
    let mut order: Vec<In> = Vec::new();
    let mut i: usize = 0;
    assert(all.take(0) =~= seq![]);
    assert(ydoc::ins_tree(order@) =~= seq![]);
    while i < documents.len()
        invariant
            i <= all.len(),
            all == documents@,
            ydoc::entries_tree(entries@) == documents_tree(
                all.take(i as int),
                doc_ids@,
                created_by@,
                now@,
            ),
            ydoc::ins_tree(order@) == document_ids(all.take(i as int), doc_ids@),
        decreases all.len() - i,
    {
        let ghost before = order@;
        assert(all.take(i + 1).drop_last() =~= all.take(i as int));
        if let Some(new_id) = doc_ids.get(documents[i].id.as_str()) {
            let v = document_in(&documents[i], new_id.as_str(), created_by, now);
            put(&mut entries, new_id.as_str(), v);
            order.push(ydoc::in_str(new_id.as_str()));
            assert(ydoc::ins_tree(order@) =~= ydoc::ins_tree(before).push(ydoc::ystr(new_id@)));
        }
        i = i + 1;
    }
    assert(all.take(all.len() as int) =~= all);
    (entries, order)
}

// ---------------------------------------------------------------------------
// Comments
// ---------------------------------------------------------------------------

/// Whether the time of a comment exists.
pub open spec fn comment_ok(c: TemplateComment, start: Date) -> bool {
    start.plus_seconds(c.created_at_offset_seconds as int) is Some
}

/// A comment of the new space. Its author is nobody; the name is what is kept of
/// them.
pub open spec fn comment_tree(
    c: TemplateComment,
    item_id: Seq<char>,
    start: Date,
    shown: Map<Seq<char>, Vec<XmlIn>>,
) -> YTree {
    let m = Map::empty().insert("id"@, ydoc::ystr(c.id@)).insert(
        "item_id"@,
        ydoc::ystr(item_id),
    ).insert("author_id"@, ydoc::ystr(codec::nil_uuid_text())).insert(
        "author_name"@,
        ydoc::ystr(c.author_name@),
    ).insert(
        "created_at"@,
        ydoc::ystr(
            match start.plus_seconds(c.created_at_offset_seconds as int) {
                Some(s) => s,
                None => seq![],
            },
        ),
    ).insert("deleted"@, ydoc::ybool(false));
    let m = config::with_opt(m, "parent_id"@, text::opt_text(c.parent_id));
    YTree::Dict(
        m.insert(
            "content"@,
            YTree::Fragment(
                match c.content_yjs {
                    Some(b) => blob::blob_nodes(b@, shown),
                    None => seq![],
                },
            ),
        ),
    )
}

/// The comments of an item, by id.
pub open spec fn thread_tree(
    v: Seq<TemplateComment>,
    item_id: Seq<char>,
    start: Date,
    shown: Map<Seq<char>, Vec<XmlIn>>,
) -> Map<Seq<char>, YTree>
    decreases v.len(),
{
    if v.len() == 0 {
        Map::empty()
    } else {
        thread_tree(v.drop_last(), item_id, start, shown).insert(
            v.last().id@,
            comment_tree(v.last(), item_id, start, shown),
        )
    }
}

/// The ids of the comments of an item that are no replies, in order.
pub open spec fn thread_ids(v: Seq<TemplateComment>) -> Seq<YTree>
    decreases v.len(),
{
    if v.len() == 0 {
        seq![]
    } else if v.last().parent_id is None {
        thread_ids(v.drop_last()).push(ydoc::ystr(v.last().id@))
    } else {
        thread_ids(v.drop_last())
    }
}

/// The threads of the items that have comments, by item.
pub open spec fn threads_tree(
    v: Seq<TemplateItem>,
    start: Date,
    shown: Map<Seq<char>, Vec<XmlIn>>,
) -> Map<Seq<char>, YTree>
    decreases v.len(),
{
    if v.len() == 0 {
        Map::empty()
    } else {
        let rest = threads_tree(v.drop_last(), start, shown);
        let t = v.last();
        if t.comments@.len() > 0 {
            rest.insert(t.id@, YTree::Dict(thread_tree(t.comments@, t.id@, start, shown)))
        } else {
            rest
        }
    }
}

/// The order of the threads of the items that have comments, by item.
pub open spec fn threads_order(v: Seq<TemplateItem>) -> Map<Seq<char>, YTree>
    decreases v.len(),
{
    if v.len() == 0 {
        Map::empty()
    } else {
        let rest = threads_order(v.drop_last());
        let t = v.last();
        if t.comments@.len() > 0 {
            rest.insert(t.id@, YTree::List(thread_ids(t.comments@)))
        } else {
            rest
        }
    }
}

/// Whether any item has comments.
pub open spec fn any_comments(v: Seq<TemplateItem>) -> bool {
    exists|i: int| 0 <= i < v.len() && (#[trigger] v[i]).comments@.len() > 0
}

/// Whether all comments of an item can be taken over.
pub open spec fn comments_ok(t: TemplateItem, start: Date) -> bool {
    forall|j: int|
        0 <= j < t.comments@.len() ==> comment_ok(#[trigger] t.comments@[j], start)
}

fn comment_in(
    c: &TemplateComment,
    item_id: &str,
    start: &Date,
    shown: &StrMap<Vec<XmlIn>>,
) -> (r: In)
    requires
        comment_ok(*c, *start),
    ensures
        ydoc::in_tree(r) == comment_tree(*c, item_id@, *start, shown@),
{
    let mut e: Vec<(String, In)> = Vec::new();
    put_str(&mut e, "id", c.id.as_str());
    put_str(&mut e, "item_id", item_id);
    put_str(&mut e, "author_id", codec::nil_uuid().as_str());
    put_str(&mut e, "author_name", c.author_name.as_str());
    match calendar::add_seconds(start, c.created_at_offset_seconds) {
        Some(s) => {
            put_str(&mut e, "created_at", s.as_str());
        },
        None => {
            assert(false);
        },
    }
    put(&mut e, "deleted", ydoc::in_bool(false));
    put_opt(&mut e, "parent_id", &c.parent_id);
    let nodes = match &c.content_yjs {
        Some(b) => blob::nodes_of_blob(b.as_str(), shown),
        None => Vec::new(),
    };
    assert(c.content_yjs is None ==> ydoc::xml_ins_tree(nodes@) =~= seq![]);
    put(&mut e, "content", ydoc::in_fragment(nodes));
    ydoc::in_dict(e)
}

/// The comments of an item as values to insert, and the order of its threads.
fn thread_in(
    v: &Vec<TemplateComment>,
    item_id: &str,
    start: &Date,
    shown: &StrMap<Vec<XmlIn>>,
) -> (r: (In, In))
    requires
        forall|j: int|
            0 <= j < v@.len() ==> comment_ok(#[trigger] v@[j], *start),
    ensures
        ydoc::in_tree(r.0) == YTree::Dict(thread_tree(v@, item_id@, *start, shown@)),
        ydoc::in_tree(r.1) == YTree::List(thread_ids(v@)),
{
    let mut entries: Vec<(String, In)> = Vec::new();
    let mut order: Vec<In> = Vec::new();
    let mut i: usize = 0;
    assert(v@.take(0) =~= seq![]);
    assert(ydoc::ins_tree(order@) =~= seq![]);
    while i < v.len()
        invariant
            i <= v@.len(),
            forall|j: int|
                0 <= j < v@.len() ==> comment_ok(#[trigger] v@[j], *start),
            ydoc::entries_tree(entries@) == thread_tree(
                v@.take(i as int),
                item_id@,
                *start,
                shown@,
            ),
            ydoc::ins_tree(order@) == thread_ids(v@.take(i as int)),
        decreases v@.len() - i,
    {
        let ghost before = order@;
        assert(v@.take(i + 1).drop_last() =~= v@.take(i as int));
        let c = comment_in(&v[i], item_id, start, shown);
        put(&mut entries, v[i].id.as_str(), c);
        if v[i].parent_id.is_none() {
            order.push(ydoc::in_str(v[i].id.as_str()));
            assert(ydoc::ins_tree(order@) =~= ydoc::ins_tree(before).push(
                ydoc::ystr(v@[i as int].id@),
            ));
        }
        i = i + 1;
    }
    assert(v@.take(v@.len() as int) =~= v@);
    (ydoc::in_dict(entries), ydoc::in_list(order))
}

/// Builds the comments document, where any item has comments.
pub(crate) fn build_comments_doc(
    items: &Vec<TemplateItem>,
    start: &Date,
    shown: &StrMap<Vec<XmlIn>>,
) -> (r: Option<Doc>)
    requires
        forall|i: int|
            0 <= i < items@.len() ==> comments_ok(#[trigger] items@[i], *start),
    ensures
        r is Some <==> any_comments(items@),
        r matches Some(doc) ==> {
            &&& ydoc::dict_under(ydoc::doc_roots(doc), "threads"@) == threads_tree(
                items@,
                *start,
                shown@,
            )
            &&& ydoc::dict_under(ydoc::doc_roots(doc), "threads_order"@) == threads_order(items@)
        },
{
    let mut doc = ydoc::new_doc();
    let mut any = false;
    let mut i: usize = 0;
    proof {
        reveal_strlit("threads");
        reveal_strlit("threads_order");
        assert("threads"@.len() != "threads_order"@.len());
        assert(items@.take(0) =~= seq![]);
    }
    while i < items.len()
        invariant
            i <= items@.len(),
            "threads"@ != "threads_order"@,
            forall|i: int| 0 <= i < items@.len() ==> comments_ok(#[trigger] items@[i], *start),
            ydoc::roots_are_dicts(ydoc::doc_roots(doc)),
            ydoc::dict_under(ydoc::doc_roots(doc), "threads"@) == threads_tree(
                items@.take(i as int),
                *start,
                shown@,
            ),
            ydoc::dict_under(ydoc::doc_roots(doc), "threads_order"@) == threads_order(
                items@.take(i as int),
            ),
            any ==> any_comments(items@),
            !any ==> forall|k: int| 0 <= k < i ==> (#[trigger] items@[k]).comments@.len() == 0,
        decreases items@.len() - i,
    {
        assert(items@.take(i + 1).drop_last() =~= items@.take(i as int));
        let t = &items[i];
        if t.comments.len() > 0 {
            any = true;
            assert(items@[i as int].comments@.len() > 0);
            assert(comments_ok(items@[i as int], *start));
            let (thread, order) = thread_in(&t.comments, t.id.as_str(), start, shown);
            ydoc::put_entry(&mut doc, "threads", t.id.as_str(), thread);
            ydoc::put_entry(&mut doc, "threads_order", t.id.as_str(), order);
        }
        i = i + 1;
    }
    assert(items@.take(items@.len() as int) =~= items@);
    if any {
        Some(doc)
    } else {
        None
    }
}

} // verus!
