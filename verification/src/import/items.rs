//! The items and comments of an imported space.

use vstd::prelude::*;
use yrs::types::xml::XmlIn;
use yrs::{Doc, In};

use crate::calendar;
use crate::codec;
use crate::export::types::{ExportComment, ExportItem};
use crate::str_map::StrMap;
use crate::template::blob;
use crate::template::config::{self, put, put_flag, put_opt, put_str};
use crate::template::items::{put_blob, put_strs, with_blob, with_strs};
use crate::text;
use crate::ydoc::{self, YTree};

verus! {

/// What an import depends on beside the export.
pub struct Setting {
    /// The user who imports the space.
    pub importer: Seq<char>,
    /// The time of the import, as text and in milliseconds since the epoch.
    pub now: Seq<char>,
    pub now_ms: int,
    /// The nodes that were taken from the blobs.
    pub shown: Map<Seq<char>, Vec<XmlIn>>,
    /// The users and teams of the target, by those of the export.
    pub users: Map<Seq<char>, String>,
    pub teams: Map<Seq<char>, String>,
}

// ---------------------------------------------------------------------------
// Mapped users and teams
// ---------------------------------------------------------------------------

/// What the ids are mapped to, without those that are not mapped.
pub open spec fn mapped_ids(ids: Seq<String>, map: Map<Seq<char>, String>) -> Seq<Seq<char>>
    decreases ids.len(),
{
    if ids.len() == 0 {
        seq![]
    } else {
        let rest = mapped_ids(ids.drop_last(), map);
        let k = ids.last()@;
        if map.contains_key(k) {
            rest.push(map[k]@)
        } else {
            rest
        }
    }
}

/// The number of ids that are not mapped.
pub open spec fn unmapped_count(ids: Seq<String>, map: Map<Seq<char>, String>) -> int {
    ids.len() - mapped_ids(ids, map).len()
}

/// What ids are mapped to are values of the map, and none is lost exactly where all
/// of them are mapped.
pub proof fn lemma_mapped_ids(ids: Seq<String>, map: Map<Seq<char>, String>)
    ensures
        mapped_ids(ids, map).len() <= ids.len(),
        unmapped_count(ids, map) == 0 <==> forall|i: int|
            0 <= i < ids.len() ==> map.contains_key((#[trigger] ids[i])@),
        forall|i: int|
            0 <= i < mapped_ids(ids, map).len() ==> exists|k: Seq<char>| #[trigger]
                map.contains_key(k) && map[k]@ == #[trigger] mapped_ids(ids, map)[i],
    decreases ids.len(),
{
    if ids.len() > 0 {
        let before = ids.drop_last();
        lemma_mapped_ids(before, map);
        assert forall|i: int| 0 <= i < before.len() implies before[i] == #[trigger] ids[i] by {}
        assert(ids[ids.len() - 1] == ids.last());
        if unmapped_count(before, map) == 0 && map.contains_key(ids.last()@) {
            assert forall|i: int| 0 <= i < ids.len() implies map.contains_key(
                (#[trigger] ids[i])@,
            ) by {
                if i < before.len() {
                    assert(map.contains_key(before[i]@));
                }
            }
        }
        if forall|i: int| 0 <= i < ids.len() ==> map.contains_key((#[trigger] ids[i])@) {
            assert forall|i: int| 0 <= i < before.len() implies map.contains_key(
                (#[trigger] before[i])@,
            ) by {
                assert(map.contains_key(ids[i]@));
            }
        }
    }
}

pub(crate) fn map_ids(ids: &Vec<String>, map: &StrMap<String>) -> (r: Vec<String>)
    ensures
        text::texts(r@) == mapped_ids(ids@, map@),
{
    let mut out: Vec<String> = Vec::new();
    let mut i: usize = 0;
    assert(ids@.take(0) =~= seq![]);
    assert(text::texts(out@) =~= seq![]);
    while i < ids.len()
        invariant
            i <= ids@.len(),
            text::texts(out@) == mapped_ids(ids@.take(i as int), map@),
        decreases ids@.len() - i,
    {
        let ghost before = out@;
        assert(ids@.take(i + 1).drop_last() =~= ids@.take(i as int));
        if let Some(new) = map.get(ids[i].as_str()) {
            out.push(new.clone());
            assert(text::texts(out@) =~= text::texts(before).push(new@));
        }
        i = i + 1;
    }
    assert(ids@.take(ids@.len() as int) =~= ids@);
    out
}

/// The users and teams as a map of two arrays.
pub open spec fn principals_tree(users: Seq<Seq<char>>, teams: Seq<Seq<char>>) -> YTree {
    YTree::Dict(Map::empty().insert("users"@, ydoc::ystrs(users)).insert("teams"@, ydoc::ystrs(teams)))
}

/// The entries with users and teams, if there are any.
pub open spec fn with_principals(
    m: Map<Seq<char>, YTree>,
    key: Seq<char>,
    users: Seq<Seq<char>>,
    teams: Seq<Seq<char>>,
) -> Map<Seq<char>, YTree> {
    if users.len() > 0 || teams.len() > 0 {
        m.insert(key, principals_tree(users, teams))
    } else {
        m
    }
}

pub(crate) fn put_principals(
    e: &mut Vec<(String, In)>,
    key: &str,
    users: &Vec<String>,
    teams: &Vec<String>,
)
    ensures
        ydoc::entries_tree(final(e)@) == with_principals(
            ydoc::entries_tree(old(e)@),
            key@,
            text::texts(users@),
            text::texts(teams@),
        ),
{
    if users.len() > 0 || teams.len() > 0 {
        let mut m: Vec<(String, In)> = Vec::new();
        put(&mut m, "users", config::strs_in(users));
        put(&mut m, "teams", config::strs_in(teams));
        put(e, key, ydoc::in_dict(m));
    }
}

/// Who is recorded as creator: the one the creator is mapped to, or else the
/// importer.
pub open spec fn creator(
    created_by: Option<String>,
    users: Map<Seq<char>, String>,
    importer: Seq<char>,
) -> Seq<char> {
    match created_by {
        Some(c) => if users.contains_key(c@) {
            users[c@]@
        } else {
            importer
        },
        None => importer,
    }
}

/// Whether a creator is named who is not mapped.
pub open spec fn creator_lost(created_by: Option<String>, users: Map<Seq<char>, String>) -> bool {
    created_by matches Some(c) && !users.contains_key(c@)
}

/// Resolves a creator through the users; one who is absent or not mapped is
/// replaced by the importer.
pub(crate) fn mapped_creator_or_importer<'a>(
    created_by: &'a Option<String>,
    users: &'a StrMap<String>,
    importer: &'a str,
) -> (r: &'a str)
    ensures
        r@ == creator(*created_by, users@, importer@),
{
    match created_by {
        Some(c) => match users.get(c.as_str()) {
            Some(new) => new.as_str(),
            None => importer,
        },
        None => importer,
    }
}

// ---------------------------------------------------------------------------
// Items
// ---------------------------------------------------------------------------

/// The text, or the one to take in its place.
pub open spec fn text_or(o: Option<String>, other: Seq<char>) -> Seq<char> {
    match o {
        Some(s) => s@,
        None => other,
    }
}

/// When an item was archived: the time in the export, or else the time of the
/// import.
pub open spec fn archived_ms(i: ExportItem, now_ms: int) -> int {
    match i.archived_at {
        Some(s) => match calendar::rfc3339_millis(s@) {
            Some(n) => n,
            None => now_ms,
        },
        None => now_ms,
    }
}

/// The entries with a whole number, if there is one.
pub open spec fn with_number(m: Map<Seq<char>, YTree>, key: Seq<char>, n: Option<i64>) -> Map<
    Seq<char>,
    YTree,
> {
    match n {
        Some(n) => m.insert(key, ydoc::ynumber(n as int)),
        None => m,
    }
}

/// The entries with the time of archiving, of what is archived.
pub open spec fn with_archive(m: Map<Seq<char>, YTree>, archived: bool, ms: int) -> Map<
    Seq<char>,
    YTree,
> {
    if archived {
        m.insert("archived"@, ydoc::ybool(true)).insert("archived_at"@, ydoc::ybig(ms))
    } else {
        m
    }
}

/// An item of the imported space.
pub open spec fn item_tree(i: ExportItem, s: Setting) -> YTree {
    let m = Map::empty().insert("id"@, ydoc::ystr(i.id@)).insert("title"@, ydoc::ystr(i.title@));
    let m = with_number(m, "short_id"@, i.short_id);
    let m = m.insert("labels"@, config::str_map_tree(i.labels@));
    let m = config::with_opt(m, "due_date"@, text::opt_text(i.due_date));
    let m = config::with_opt(m, "start_date"@, text::opt_text(i.start_date));
    let m = config::with_opt(m, "milestone_id"@, text::opt_text(i.milestone_id));
    let m = config::with_opt(m, "cycle_id"@, text::opt_text(i.cycle_id));
    let m = config::with_opt(m, "parent_id"@, text::opt_text(i.parent_id));
    let m = config::with_opt(m, "duplicate_of"@, text::opt_text(i.duplicate_of));
    let m = with_strs(m, "blocked_by"@, i.blocked_by@);
    let m = with_principals(
        m,
        "assignees"@,
        mapped_ids(i.assignee_user_ids@, s.users),
        mapped_ids(i.assignee_team_ids@, s.teams),
    );
    let m = with_archive(m, i.archived, archived_ms(i, s.now_ms));
    let m = with_blob(m, "description"@, text::opt_text(i.description_yjs), s.shown);
    let m = config::with_opt(m, "completion_prompt"@, text::opt_text(i.completion_prompt));
    let m = with_blob(m, "completion_note"@, text::opt_text(i.completion_note_yjs), s.shown);
    YTree::Dict(
        m.insert("created_by"@, ydoc::ystr(creator(i.created_by, s.users, s.importer))).insert(
            "created_at"@,
            ydoc::ystr(text_or(i.created_at, s.now)),
        ).insert("updated_at"@, ydoc::ystr(text_or(i.updated_at, s.now))),
    )
}

/// The items that are or are not deep-archived, by id.
pub open spec fn items_tree(v: Seq<ExportItem>, deep: bool, s: Setting) -> Map<Seq<char>, YTree>
    decreases v.len(),
{
    if v.len() == 0 {
        Map::empty()
    } else {
        let rest = items_tree(v.drop_last(), deep, s);
        if v.last().deep_archived == deep {
            rest.insert(v.last().id@, item_tree(v.last(), s))
        } else {
            rest
        }
    }
}

/// The ids of the items that are or are not deep-archived, in order.
pub open spec fn item_ids(v: Seq<ExportItem>, deep: bool) -> Seq<YTree>
    decreases v.len(),
{
    if v.len() == 0 {
        seq![]
    } else if v.last().deep_archived == deep {
        item_ids(v.drop_last(), deep).push(ydoc::ystr(v.last().id@))
    } else {
        item_ids(v.drop_last(), deep)
    }
}

/// Every item stands in the document that its flag calls for, and each of the two
/// documents holds nothing but such items; together they list every item once.
pub proof fn lemma_items_split(v: Seq<ExportItem>, s: Setting)
    ensures
        forall|i: int|
            0 <= i < v.len() ==> items_tree(v, (#[trigger] v[i]).deep_archived, s).contains_key(
                v[i].id@,
            ),
        forall|deep: bool, id: Seq<char>| #[trigger]
            items_tree(v, deep, s).contains_key(id) ==> exists|i: int|
                0 <= i < v.len() && (#[trigger] v[i]).deep_archived == deep && v[i].id@ == id,
        item_ids(v, false).len() + item_ids(v, true).len() == v.len(),
    decreases v.len(),
{
    if v.len() > 0 {
        let before = v.drop_last();
        lemma_items_split(before, s);
        assert forall|i: int| 0 <= i < v.len() implies items_tree(
            v,
            (#[trigger] v[i]).deep_archived,
            s,
        ).contains_key(v[i].id@) by {
            if i < before.len() {
                assert(before[i] == v[i]);
            }
        }
        assert forall|deep: bool, id: Seq<char>| #[trigger]
            items_tree(v, deep, s).contains_key(id) implies exists|i: int|
            0 <= i < v.len() && (#[trigger] v[i]).deep_archived == deep && v[i].id@ == id by {
            if items_tree(before, deep, s).contains_key(id) {
                let i = choose|i: int|
                    0 <= i < before.len() && (#[trigger] before[i]).deep_archived == deep
                        && before[i].id@ == id;
                assert(v[i] == before[i]);
            } else {
                assert(v[v.len() - 1] == v.last());
            }
        }
    }
}

pub(crate) fn text_or_else<'a>(o: &'a Option<String>, other: &'a str) -> (r: &'a str)
    ensures
        r@ == text_or(*o, other@),
{
    match o {
        Some(s) => s.as_str(),
        None => other,
    }
}

fn archived_millis(i: &ExportItem, now_ms: i64) -> (r: i64)
    ensures
        r == archived_ms(*i, now_ms as int),
{
    match &i.archived_at {
        Some(s) => match calendar::parse_rfc3339_millis(s.as_str()) {
            Some(n) => n,
            None => now_ms,
        },
        None => now_ms,
    }
}

/// What an import needs to know of its surroundings.
pub struct Surroundings<'a> {
    pub importer: &'a str,
    pub now: &'a str,
    pub now_ms: i64,
    pub shown: &'a StrMap<Vec<XmlIn>>,
    pub users: &'a StrMap<String>,
    pub teams: &'a StrMap<String>,
}

impl<'a> Surroundings<'a> {
    pub open spec fn setting(self) -> Setting {
        Setting {
            importer: self.importer@,
            now: self.now@,
            now_ms: self.now_ms as int,
            shown: self.shown@,
            users: self.users@,
            teams: self.teams@,
        }
    }
}

/// An item as a value to insert.
pub(crate) fn write_item(i: &ExportItem, s: &Surroundings<'_>) -> (r: In)
    ensures
        ydoc::in_tree(r) == item_tree(*i, s.setting()),
{
    let mut e: Vec<(String, In)> = Vec::new();
    put_str(&mut e, "id", i.id.as_str());
    put_str(&mut e, "title", i.title.as_str());
    if let Some(n) = i.short_id {
        put(&mut e, "short_id", ydoc::in_number(n));
    }
    put(&mut e, "labels", config::str_map_in(&i.labels));
    put_opt(&mut e, "due_date", &i.due_date);
    put_opt(&mut e, "start_date", &i.start_date);
    put_opt(&mut e, "milestone_id", &i.milestone_id);
    put_opt(&mut e, "cycle_id", &i.cycle_id);
    put_opt(&mut e, "parent_id", &i.parent_id);
    put_opt(&mut e, "duplicate_of", &i.duplicate_of);
    put_strs(&mut e, "blocked_by", &i.blocked_by);
    let users = map_ids(&i.assignee_user_ids, s.users);
    let teams = map_ids(&i.assignee_team_ids, s.teams);
    put_principals(&mut e, "assignees", &users, &teams);
    if i.archived {
        put(&mut e, "archived", ydoc::in_bool(true));
        put(&mut e, "archived_at", ydoc::in_big(archived_millis(i, s.now_ms)));
    }
    put_blob(&mut e, "description", &i.description_yjs, s.shown);
    put_opt(&mut e, "completion_prompt", &i.completion_prompt);
    put_blob(&mut e, "completion_note", &i.completion_note_yjs, s.shown);
    let created_by = mapped_creator_or_importer(&i.created_by, s.users, s.importer);
    put_str(&mut e, "created_by", created_by);
    put_str(&mut e, "created_at", text_or_else(&i.created_at, s.now));
    put_str(&mut e, "updated_at", text_or_else(&i.updated_at, s.now));
    ydoc::in_dict(e)
}

/// The items that are or are not deep-archived as values to insert, by id, and
/// their ids in order.
pub(crate) fn write_items(v: &Vec<ExportItem>, deep: bool, s: &Surroundings<'_>) -> (r: (
    Vec<(String, In)>,
    Vec<In>,
))
    ensures
        ydoc::entries_tree(r.0@) == items_tree(v@, deep, s.setting()),
        ydoc::ins_tree(r.1@) == item_ids(v@, deep),
{
    let mut entries: Vec<(String, In)> = Vec::new();
    let mut order: Vec<In> = Vec::new();
    let mut i: usize = 0;
    assert(v@.take(0) =~= seq![]);
    assert(ydoc::ins_tree(order@) =~= seq![]);
    while i < v.len()
        invariant
            i <= v@.len(),
            ydoc::entries_tree(entries@) == items_tree(v@.take(i as int), deep, s.setting()),
            ydoc::ins_tree(order@) == item_ids(v@.take(i as int), deep),
        decreases v@.len() - i,
    {
        let ghost before = order@;
        assert(v@.take(i + 1).drop_last() =~= v@.take(i as int));
        if v[i].deep_archived == deep {
            let value = write_item(&v[i], s);
            put(&mut entries, v[i].id.as_str(), value);
            order.push(ydoc::in_str(v[i].id.as_str()));
            assert(ydoc::ins_tree(order@) =~= ydoc::ins_tree(before).push(
                ydoc::ystr(v@[i as int].id@),
            ));
        }
        i = i + 1;
    }
    assert(v@.take(v@.len() as int) =~= v@);
    (entries, order)
}

// ---------------------------------------------------------------------------
// Comments
// ---------------------------------------------------------------------------

/// Who is recorded as the author of a comment: the one the author is mapped to, or
/// else nobody.
pub open spec fn comment_author(c: ExportComment, users: Map<Seq<char>, String>) -> Seq<char> {
    if users.contains_key(c.author_id@) {
        users[c.author_id@]@
    } else {
        codec::nil_uuid_text()
    }
}

/// A comment of the imported space.
pub open spec fn comment_tree(c: ExportComment, item_id: Seq<char>, s: Setting) -> YTree {
    let m = Map::empty().insert("id"@, ydoc::ystr(c.id@)).insert(
        "item_id"@,
        ydoc::ystr(item_id),
    ).insert("author_id"@, ydoc::ystr(comment_author(c, s.users))).insert(
        "author_name"@,
        ydoc::ystr(text_or(c.author_name, "Unknown user"@)),
    );
    let m = config::with_opt(m, "created_at"@, text::opt_text(c.created_at));
    let m = config::with_opt(m, "edited_at"@, text::opt_text(c.edited_at));
    let m = m.insert("deleted"@, ydoc::ybool(c.deleted));
    let m = config::with_opt(m, "deleted_at"@, text::opt_text(c.deleted_at));
    let m = config::with_opt(m, "parent_id"@, text::opt_text(c.parent_id));
    YTree::Dict(
        m.insert(
            "content"@,
            YTree::Fragment(
                match c.content_yjs {
                    Some(b) => blob::blob_nodes(b@, s.shown),
                    None => seq![],
                },
            ),
        ),
    )
}

/// The comments of an item, by id.
pub open spec fn thread_tree(v: Seq<ExportComment>, item_id: Seq<char>, s: Setting) -> Map<
    Seq<char>,
    YTree,
>
    decreases v.len(),
{
    if v.len() == 0 {
        Map::empty()
    } else {
        thread_tree(v.drop_last(), item_id, s).insert(
            v.last().id@,
            comment_tree(v.last(), item_id, s),
        )
    }
}

/// The ids of the comments of an item that are neither replies nor deleted, in
/// order.
pub open spec fn thread_ids(v: Seq<ExportComment>) -> Seq<YTree>
    decreases v.len(),
{
    if v.len() == 0 {
        seq![]
    } else if v.last().parent_id is None && !v.last().deleted {
        thread_ids(v.drop_last()).push(ydoc::ystr(v.last().id@))
    } else {
        thread_ids(v.drop_last())
    }
}

/// Whether an item has a thread among the deep-archived or the other items.
pub open spec fn has_thread(i: ExportItem, deep: bool) -> bool {
    i.deep_archived == deep && i.comments@.len() > 0
}

/// The threads of the items, by item.
pub open spec fn threads_tree(v: Seq<ExportItem>, deep: bool, s: Setting) -> Map<Seq<char>, YTree>
    decreases v.len(),
{
    if v.len() == 0 {
        Map::empty()
    } else {
        let rest = threads_tree(v.drop_last(), deep, s);
        let i = v.last();
        if has_thread(i, deep) {
            rest.insert(i.id@, YTree::Dict(thread_tree(i.comments@, i.id@, s)))
        } else {
            rest
        }
    }
}

/// The order of the threads of the items, by item.
pub open spec fn threads_order(v: Seq<ExportItem>, deep: bool) -> Map<Seq<char>, YTree>
    decreases v.len(),
{
    if v.len() == 0 {
        Map::empty()
    } else {
        let rest = threads_order(v.drop_last(), deep);
        let i = v.last();
        if has_thread(i, deep) {
            rest.insert(i.id@, YTree::List(thread_ids(i.comments@)))
        } else {
            rest
        }
    }
}

fn write_comment(c: &ExportComment, item_id: &str, s: &Surroundings<'_>) -> (r: In)
    ensures
        ydoc::in_tree(r) == comment_tree(*c, item_id@, s.setting()),
{
    let mut e: Vec<(String, In)> = Vec::new();
    put_str(&mut e, "id", c.id.as_str());
    put_str(&mut e, "item_id", item_id);
    match s.users.get(c.author_id.as_str()) {
        Some(new) => {
            put_str(&mut e, "author_id", new.as_str());
        },
        None => {
            put_str(&mut e, "author_id", codec::nil_uuid().as_str());
        },
    }
    put_str(&mut e, "author_name", text_or_else(&c.author_name, "Unknown user"));
    put_opt(&mut e, "created_at", &c.created_at);
    put_opt(&mut e, "edited_at", &c.edited_at);
    put(&mut e, "deleted", ydoc::in_bool(c.deleted));
    put_opt(&mut e, "deleted_at", &c.deleted_at);
    put_opt(&mut e, "parent_id", &c.parent_id);
    let nodes = match &c.content_yjs {
        Some(b) => blob::nodes_of_blob(b.as_str(), s.shown),
        None => Vec::new(),
    };
    assert(c.content_yjs is None ==> ydoc::xml_ins_tree(nodes@) =~= seq![]);
    put(&mut e, "content", ydoc::in_fragment(nodes));
    ydoc::in_dict(e)
}

fn write_thread(v: &Vec<ExportComment>, item_id: &str, s: &Surroundings<'_>) -> (r: (In, In))
    ensures
        ydoc::in_tree(r.0) == YTree::Dict(thread_tree(v@, item_id@, s.setting())),
        ydoc::in_tree(r.1) == YTree::List(thread_ids(v@)),
{
    let mut entries: Vec<(String, In)> = Vec::new();
    let mut order: Vec<In> = Vec::new();
    let mut i: usize = 0;
    assert(v@.take(0) =~= seq![]);
    assert(ydoc::ins_tree(order@) =~= seq![]);
    while i < v.len()
        invariant
            i <= v@.len(),
            ydoc::entries_tree(entries@) == thread_tree(v@.take(i as int), item_id@, s.setting()),
            ydoc::ins_tree(order@) == thread_ids(v@.take(i as int)),
        decreases v@.len() - i,
    {
        let ghost before = order@;
        assert(v@.take(i + 1).drop_last() =~= v@.take(i as int));
        let c = write_comment(&v[i], item_id, s);
        put(&mut entries, v[i].id.as_str(), c);
        if v[i].parent_id.is_none() && !v[i].deleted {
            order.push(ydoc::in_str(v[i].id.as_str()));
            assert(ydoc::ins_tree(order@) =~= ydoc::ins_tree(before).push(
                ydoc::ystr(v@[i as int].id@),
            ));
        }
        i = i + 1;
    }
    assert(v@.take(v@.len() as int) =~= v@);
    (ydoc::in_dict(entries), ydoc::in_list(order))
}

/// The threads of the items as values to insert, by item, and their orders.
pub(crate) fn write_comment_threads(v: &Vec<ExportItem>, deep: bool, s: &Surroundings<'_>) -> (r: (
    Vec<(String, In)>,
    Vec<(String, In)>,
))
    ensures
        ydoc::entries_tree(r.0@) == threads_tree(v@, deep, s.setting()),
        ydoc::entries_tree(r.1@) == threads_order(v@, deep),
{
    let mut threads: Vec<(String, In)> = Vec::new();
    let mut orders: Vec<(String, In)> = Vec::new();
    let mut i: usize = 0;
    assert(v@.take(0) =~= seq![]);
    while i < v.len()
        invariant
            i <= v@.len(),
            ydoc::entries_tree(threads@) == threads_tree(v@.take(i as int), deep, s.setting()),
            ydoc::entries_tree(orders@) == threads_order(v@.take(i as int), deep),
        decreases v@.len() - i,
    {
        assert(v@.take(i + 1).drop_last() =~= v@.take(i as int));
        if v[i].deep_archived == deep && v[i].comments.len() > 0 {
            let (thread, order) = write_thread(&v[i].comments, v[i].id.as_str(), s);
            put(&mut threads, v[i].id.as_str(), thread);
            put(&mut orders, v[i].id.as_str(), order);
        }
        i = i + 1;
    }
    assert(v@.take(v@.len() as int) =~= v@);
    (threads, orders)
}

} // verus!
