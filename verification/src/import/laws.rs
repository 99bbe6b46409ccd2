//! What is read back of the documents that an import builds.

use vstd::prelude::*;
use yrs::types::xml::XmlIn;
use yrs::Doc;

use crate::calendar;
use crate::codec;
use crate::export::types::{
    ExportComment, ExportCycle, ExportDocument, ExportItem, ExportMilestoneDef, ExportMilestones,
    ExportTeam, ExportUser, SpaceExport,
};
use crate::import::documents::{self, Anchors};
use crate::import::items::{self, Setting};
use crate::import::space::{self, ImportBuildResult, ImportMaps};
use crate::import::space_config;
use crate::read_back::{
    are_texts, at, blob_entry, entry, flag_entry, has_bool, has_flag, has_fragment, has_number,
    has_opt, has_text, has_text_map, has_texts, lemma_at, lemma_entry, lemma_sets, lemma_str_map, lemma_strs,
    put, str_entry, strs_entry,
};
use crate::rich_text::AnyTree;
use crate::str_map::StrMap;
use crate::template::blob;
use crate::template::config::{self, FilterPolicy};
use crate::template::instantiator;
use crate::template::laws::{
    archive_entry, cycles_entry, cycles_read_back, labels_read_back, lemma_config_sets,
    lemma_cycles_read_back, lemma_labels_read_back, lemma_views_read_back, views_read_back,
};
use crate::text;
use crate::ydoc::{self, YTree};

verus! {

/// What the ids that are mapped are mapped to, in order.
pub open spec fn targets(ids: Seq<String>, map: Map<Seq<char>, String>) -> Seq<Seq<char>> {
    ids.filter(|u: String| map.contains_key(u@)).map_values(|u: String| map[u@]@)
}

pub proof fn lemma_targets(ids: Seq<String>, map: Map<Seq<char>, String>)
    ensures
        items::mapped_ids(ids, map) == targets(ids, map),
    decreases ids.len(),
{
    reveal(Seq::filter);
    if ids.len() > 0 {
        lemma_targets(ids.drop_last(), map);
        assert(items::mapped_ids(ids, map) =~= targets(ids, map));
    } else {
        assert(items::mapped_ids(ids, map) =~= targets(ids, map));
    }
}

/// The items that are not deep-archived of an imported space, or those that are.
pub open spec fn items_in(r: ImportBuildResult, deep: bool) -> Map<Seq<char>, YTree> {
    if deep {
        match r.archive_doc {
            Some(doc) => ydoc::dict_under(ydoc::doc_roots(doc), "items"@),
            None => Map::empty(),
        }
    } else {
        ydoc::dict_under(ydoc::doc_roots(r.space_doc), "items"@)
    }
}

/// Whether no later item with the same id stands in the same document.
pub open spec fn is_last_item(v: Seq<ExportItem>, k: int) -> bool {
    &&& 0 <= k < v.len()
    &&& forall|j: int|
        k < j < v.len() && v[j].deep_archived == v[k].deep_archived ==> (#[trigger] v[j]).id@
            != v[k].id@
}

proof fn lemma_item_entry(v: Seq<ExportItem>, k: int, s: Setting)
    requires
        is_last_item(v, k),
    ensures
        items::items_tree(v, v[k].deep_archived, s).contains_key(v[k].id@),
        items::items_tree(v, v[k].deep_archived, s)[v[k].id@] == items::item_tree(v[k], s),
    decreases v.len(),
{
    if k < v.len() - 1 {
        let before = v.drop_last();
        assert forall|j: int|
            k < j < before.len() && before[j].deep_archived == before[k].deep_archived implies (
        #[trigger] before[j]).id@ != before[k].id@ by {
            assert(before[j] == v[j]);
        }
        lemma_item_entry(before, k, s);
        assert(v[v.len() - 1] == v.last());
    }
}

/// The fields of an item as they stand in a document.
pub open spec fn item_read_back(
    t: YTree,
    i: ExportItem,
    maps: ImportMaps,
    importer: Seq<char>,
    now: Seq<char>,
) -> bool {
    &&& has_text(t, "id"@, i.id@)
    &&& has_text(t, "title"@, i.title@)
    &&& (match i.short_id {
        Some(n) => has_number(t, "short_id"@, n as int),
        None => entry(t, "short_id"@) is None,
    })
    &&& has_text_map(t, "labels"@, i.labels@)
    &&& has_opt(t, "due_date"@, i.due_date)
    &&& has_opt(t, "start_date"@, i.start_date)
    &&& has_opt(t, "milestone_id"@, i.milestone_id)
    &&& has_opt(t, "cycle_id"@, i.cycle_id)
    &&& has_opt(t, "parent_id"@, i.parent_id)
    &&& has_opt(t, "duplicate_of"@, i.duplicate_of)
    &&& (if i.blocked_by@.len() > 0 {
        has_texts(t, "blocked_by"@, text::texts(i.blocked_by@))
    } else {
        entry(t, "blocked_by"@) is None
    })
    &&& has_opt(t, "completion_prompt"@, i.completion_prompt)
    &&& (match i.created_by {
        Some(u) => has_text(
            t,
            "created_by"@,
            if maps.user_map@.contains_key(u@) {
                maps.user_map@[u@]@
            } else {
                importer
            },
        ),
        None => has_text(t, "created_by"@, importer),
    })
    &&& (match i.created_at {
        Some(d) => has_text(t, "created_at"@, d@),
        None => has_text(t, "created_at"@, now),
    })
    &&& (match i.updated_at {
        Some(d) => has_text(t, "updated_at"@, d@),
        None => has_text(t, "updated_at"@, now),
    })
}

/// The people of an item as they stand in a document.
pub open spec fn people_read_back(
    t: YTree,
    key: Seq<char>,
    users: Seq<Seq<char>>,
    teams: Seq<Seq<char>>,
) -> bool {
    if users.len() == 0 && teams.len() == 0 {
        entry(t, key) is None
    } else {
        match entry(t, key) {
            Some(p) => has_texts(p, "users"@, users) && has_texts(p, "teams"@, teams),
            None => false,
        }
    }
}

/// When an item was archived, as it stands in a document.
pub open spec fn archive_read_back(t: YTree, i: ExportItem, now_ms: int) -> bool {
    if i.archived {
        &&& has_bool(t, "archived"@, true)
        &&& entry(t, "archived_at"@) == Some(
            YTree::Value(
                AnyTree::BigInt(
                    match i.archived_at {
                        Some(d) => match calendar::rfc3339_millis(d@) {
                            Some(ms) => ms,
                            None => now_ms,
                        },
                        None => now_ms,
                    },
                ),
            ),
        )
    } else {
        entry(t, "archived"@) is None && entry(t, "archived_at"@) is None
    }
}

/// The rich text of a blob as it stands in a document.
pub open spec fn blob_read_back(
    t: YTree,
    key: Seq<char>,
    b: Option<String>,
    shown: Map<Seq<char>, Vec<XmlIn>>,
) -> bool {
    match b {
        Some(s) => has_fragment(t, key, blob::blob_nodes(s@, shown)),
        None => entry(t, key) is None,
    }
}

/// Users and teams as an entry, if there are any.
pub open spec fn people_entry(users: Seq<Seq<char>>, teams: Seq<Seq<char>>) -> Option<YTree> {
    if users.len() > 0 || teams.len() > 0 {
        Some(items::principals_tree(users, teams))
    } else {
        None
    }
}

/// A whole number as an entry, if there is one.
pub open spec fn number_entry(n: Option<i64>) -> Option<YTree> {
    match n {
        Some(n) => Some(ydoc::ynumber(n as int)),
        None => None,
    }
}

/// A time as an entry, if `on` holds.
pub open spec fn time_entry(on: bool, ms: int) -> Option<YTree> {
    if on {
        Some(ydoc::ybig(ms))
    } else {
        None
    }
}

proof fn lemma_import_sets()
    ensures
        forall|m: Map<Seq<char>, YTree>, key: Seq<char>, u: Seq<Seq<char>>, t: Seq<Seq<char>>|
            #[trigger] items::with_principals(m, key, u, t) == put(m, key, people_entry(u, t)),
        forall|m: Map<Seq<char>, YTree>, key: Seq<char>, n: Option<i64>|
            #[trigger] items::with_number(m, key, n) == put(m, key, number_entry(n)),
        forall|m: Map<Seq<char>, YTree>, on: bool, ms: int|
            #[trigger] items::with_archive(m, on, ms) == put(
                put(m, "archived"@, flag_entry(on)),
                "archived_at"@,
                time_entry(on, ms),
            ),
{
    reveal(put);
}

proof fn lemma_item_keys()
    ensures
        "id"@ != "title"@,
        "id"@ != "short_id"@,
        "id"@ != "labels"@,
        "id"@ != "due_date"@,
        "id"@ != "start_date"@,
        "id"@ != "milestone_id"@,
        "id"@ != "cycle_id"@,
        "id"@ != "parent_id"@,
        "id"@ != "duplicate_of"@,
        "id"@ != "blocked_by"@,
        "id"@ != "assignees"@,
        "id"@ != "archived"@,
        "id"@ != "archived_at"@,
        "id"@ != "description"@,
        "id"@ != "completion_prompt"@,
        "id"@ != "completion_note"@,
        "id"@ != "created_by"@,
        "id"@ != "created_at"@,
        "id"@ != "updated_at"@,
        "title"@ != "short_id"@,
        "title"@ != "labels"@,
        "title"@ != "due_date"@,
        "title"@ != "start_date"@,
        "title"@ != "milestone_id"@,
        "title"@ != "cycle_id"@,
        "title"@ != "parent_id"@,
        "title"@ != "duplicate_of"@,
        "title"@ != "blocked_by"@,
        "title"@ != "assignees"@,
        "title"@ != "archived"@,
        "title"@ != "archived_at"@,
        "title"@ != "description"@,
        "title"@ != "completion_prompt"@,
        "title"@ != "completion_note"@,
        "title"@ != "created_by"@,
        "title"@ != "created_at"@,
        "title"@ != "updated_at"@,
        "short_id"@ != "labels"@,
        "short_id"@ != "due_date"@,
        "short_id"@ != "start_date"@,
        "short_id"@ != "milestone_id"@,
        "short_id"@ != "cycle_id"@,
        "short_id"@ != "parent_id"@,
        "short_id"@ != "duplicate_of"@,
        "short_id"@ != "blocked_by"@,
        "short_id"@ != "assignees"@,
        "short_id"@ != "archived"@,
        "short_id"@ != "archived_at"@,
        "short_id"@ != "description"@,
        "short_id"@ != "completion_prompt"@,
        "short_id"@ != "completion_note"@,
        "short_id"@ != "created_by"@,
        "short_id"@ != "created_at"@,
        "short_id"@ != "updated_at"@,
        "labels"@ != "due_date"@,
        "labels"@ != "start_date"@,
        "labels"@ != "milestone_id"@,
        "labels"@ != "cycle_id"@,
        "labels"@ != "parent_id"@,
        "labels"@ != "duplicate_of"@,
        "labels"@ != "blocked_by"@,
        "labels"@ != "assignees"@,
        "labels"@ != "archived"@,
        "labels"@ != "archived_at"@,
        "labels"@ != "description"@,
        "labels"@ != "completion_prompt"@,
        "labels"@ != "completion_note"@,
        "labels"@ != "created_by"@,
        "labels"@ != "created_at"@,
        "labels"@ != "updated_at"@,
        "due_date"@ != "start_date"@,
        "due_date"@ != "milestone_id"@,
        "due_date"@ != "cycle_id"@,
        "due_date"@ != "parent_id"@,
        "due_date"@ != "duplicate_of"@,
        "due_date"@ != "blocked_by"@,
        "due_date"@ != "assignees"@,
        "due_date"@ != "archived"@,
        "due_date"@ != "archived_at"@,
        "due_date"@ != "description"@,
        "due_date"@ != "completion_prompt"@,
        "due_date"@ != "completion_note"@,
        "due_date"@ != "created_by"@,
        "due_date"@ != "created_at"@,
        "due_date"@ != "updated_at"@,
        "start_date"@ != "milestone_id"@,
        "start_date"@ != "cycle_id"@,
        "start_date"@ != "parent_id"@,
        "start_date"@ != "duplicate_of"@,
        "start_date"@ != "blocked_by"@,
        "start_date"@ != "assignees"@,
        "start_date"@ != "archived"@,
        "start_date"@ != "archived_at"@,
        "start_date"@ != "description"@,
        "start_date"@ != "completion_prompt"@,
        "start_date"@ != "completion_note"@,
        "start_date"@ != "created_by"@,
        "start_date"@ != "created_at"@,
        "start_date"@ != "updated_at"@,
        "milestone_id"@ != "cycle_id"@,
        "milestone_id"@ != "parent_id"@,
        "milestone_id"@ != "duplicate_of"@,
        "milestone_id"@ != "blocked_by"@,
        "milestone_id"@ != "assignees"@,
        "milestone_id"@ != "archived"@,
        "milestone_id"@ != "archived_at"@,
        "milestone_id"@ != "description"@,
        "milestone_id"@ != "completion_prompt"@,
        "milestone_id"@ != "completion_note"@,
        "milestone_id"@ != "created_by"@,
        "milestone_id"@ != "created_at"@,
        "milestone_id"@ != "updated_at"@,
        "cycle_id"@ != "parent_id"@,
        "cycle_id"@ != "duplicate_of"@,
        "cycle_id"@ != "blocked_by"@,
        "cycle_id"@ != "assignees"@,
        "cycle_id"@ != "archived"@,
        "cycle_id"@ != "archived_at"@,
        "cycle_id"@ != "description"@,
        "cycle_id"@ != "completion_prompt"@,
        "cycle_id"@ != "completion_note"@,
        "cycle_id"@ != "created_by"@,
        "cycle_id"@ != "created_at"@,
        "cycle_id"@ != "updated_at"@,
        "parent_id"@ != "duplicate_of"@,
        "parent_id"@ != "blocked_by"@,
        "parent_id"@ != "assignees"@,
        "parent_id"@ != "archived"@,
        "parent_id"@ != "archived_at"@,
        "parent_id"@ != "description"@,
        "parent_id"@ != "completion_prompt"@,
        "parent_id"@ != "completion_note"@,
        "parent_id"@ != "created_by"@,
        "parent_id"@ != "created_at"@,
        "parent_id"@ != "updated_at"@,
        "duplicate_of"@ != "blocked_by"@,
        "duplicate_of"@ != "assignees"@,
        "duplicate_of"@ != "archived"@,
        "duplicate_of"@ != "archived_at"@,
        "duplicate_of"@ != "description"@,
        "duplicate_of"@ != "completion_prompt"@,
        "duplicate_of"@ != "completion_note"@,
        "duplicate_of"@ != "created_by"@,
        "duplicate_of"@ != "created_at"@,
        "duplicate_of"@ != "updated_at"@,
        "blocked_by"@ != "assignees"@,
        "blocked_by"@ != "archived"@,
        "blocked_by"@ != "archived_at"@,
        "blocked_by"@ != "description"@,
        "blocked_by"@ != "completion_prompt"@,
        "blocked_by"@ != "completion_note"@,
        "blocked_by"@ != "created_by"@,
        "blocked_by"@ != "created_at"@,
        "blocked_by"@ != "updated_at"@,
        "assignees"@ != "archived"@,
        "assignees"@ != "archived_at"@,
        "assignees"@ != "description"@,
        "assignees"@ != "completion_prompt"@,
        "assignees"@ != "completion_note"@,
        "assignees"@ != "created_by"@,
        "assignees"@ != "created_at"@,
        "assignees"@ != "updated_at"@,
        "archived"@ != "archived_at"@,
        "archived"@ != "description"@,
        "archived"@ != "completion_prompt"@,
        "archived"@ != "completion_note"@,
        "archived"@ != "created_by"@,
        "archived"@ != "created_at"@,
        "archived"@ != "updated_at"@,
        "archived_at"@ != "description"@,
        "archived_at"@ != "completion_prompt"@,
        "archived_at"@ != "completion_note"@,
        "archived_at"@ != "created_by"@,
        "archived_at"@ != "created_at"@,
        "archived_at"@ != "updated_at"@,
        "description"@ != "completion_prompt"@,
        "description"@ != "completion_note"@,
        "description"@ != "created_by"@,
        "description"@ != "created_at"@,
        "description"@ != "updated_at"@,
        "completion_prompt"@ != "completion_note"@,
        "completion_prompt"@ != "created_by"@,
        "completion_prompt"@ != "created_at"@,
        "completion_prompt"@ != "updated_at"@,
        "completion_note"@ != "created_by"@,
        "completion_note"@ != "created_at"@,
        "completion_note"@ != "updated_at"@,
        "created_by"@ != "created_at"@,
        "created_by"@ != "updated_at"@,
        "created_at"@ != "updated_at"@,
{
    reveal_strlit("id");
    reveal_strlit("title");
    reveal_strlit("short_id");
    reveal_strlit("labels");
    reveal_strlit("due_date");
    reveal_strlit("start_date");
    reveal_strlit("milestone_id");
    reveal_strlit("cycle_id");
    reveal_strlit("parent_id");
    reveal_strlit("duplicate_of");
    reveal_strlit("blocked_by");
    reveal_strlit("assignees");
    reveal_strlit("archived");
    reveal_strlit("archived_at");
    reveal_strlit("description");
    reveal_strlit("completion_prompt");
    reveal_strlit("completion_note");
    reveal_strlit("created_by");
    reveal_strlit("created_at");
    reveal_strlit("updated_at");
    assert("id"@.len() == 2);
    assert("title"@.len() == 5);
    assert("short_id"@.len() == 8);
    assert("labels"@.len() == 6);
    assert("due_date"@.len() == 8);
    assert("start_date"@.len() == 10);
    assert("milestone_id"@.len() == 12);
    assert("cycle_id"@.len() == 8);
    assert("parent_id"@.len() == 9);
    assert("duplicate_of"@.len() == 12);
    assert("blocked_by"@.len() == 10);
    assert("assignees"@.len() == 9);
    assert("archived"@.len() == 8);
    assert("archived_at"@.len() == 11);
    assert("description"@.len() == 11);
    assert("completion_prompt"@.len() == 17);
    assert("completion_note"@.len() == 15);
    assert("created_by"@.len() == 10);
    assert("created_at"@.len() == 10);
    assert("updated_at"@.len() == 10);
    assert("short_id"@[0] == 's');
    assert("due_date"@[0] == 'd');
    assert("cycle_id"@[0] == 'c');
    assert("archived"@[0] == 'a');
    assert("start_date"@[0] == 's');
    assert("blocked_by"@[0] == 'b');
    assert("created_by"@[0] == 'c');
    assert("created_at"@[0] == 'c');
    assert("updated_at"@[0] == 'u');
    assert("created_by"@[8] == 'b');
    assert("created_at"@[8] == 'a');
    assert("milestone_id"@[0] == 'm');
    assert("duplicate_of"@[0] == 'd');
    assert("parent_id"@[0] == 'p');
    assert("assignees"@[0] == 'a');
    assert("archived_at"@[0] == 'a');
    assert("description"@[0] == 'd');
}

proof fn lemma_people_keys()
    ensures
        "users"@ != "teams"@,
{
    reveal_strlit("users");
    reveal_strlit("teams");
    assert("users"@.len() == 5);
    assert("teams"@.len() == 5);
    assert("users"@[0] == 'u');
    assert("teams"@[0] == 't');
}

/// The entries of an item, one after the other.
spec fn item_entries(i: ExportItem, s: Setting) -> Map<Seq<char>, YTree> {
    let m = put(Map::empty(), "id"@, Some(ydoc::ystr(i.id@)));
    let m = put(m, "title"@, Some(ydoc::ystr(i.title@)));
    let m = put(m, "short_id"@, number_entry(i.short_id));
    let m = put(m, "labels"@, Some(config::str_map_tree(i.labels@)));
    let m = put(m, "due_date"@, str_entry(text::opt_text(i.due_date)));
    let m = put(m, "start_date"@, str_entry(text::opt_text(i.start_date)));
    let m = put(m, "milestone_id"@, str_entry(text::opt_text(i.milestone_id)));
    let m = put(m, "cycle_id"@, str_entry(text::opt_text(i.cycle_id)));
    let m = put(m, "parent_id"@, str_entry(text::opt_text(i.parent_id)));
    let m = put(m, "duplicate_of"@, str_entry(text::opt_text(i.duplicate_of)));
    let m = put(m, "blocked_by"@, strs_entry(i.blocked_by@));
    let m = put(
        m,
        "assignees"@,
        people_entry(
            items::mapped_ids(i.assignee_user_ids@, s.users),
            items::mapped_ids(i.assignee_team_ids@, s.teams),
        ),
    );
    let m = put(m, "archived"@, flag_entry(i.archived));
    let m = put(m, "archived_at"@, time_entry(i.archived, items::archived_ms(i, s.now_ms)));
    let m = put(m, "description"@, blob_entry(text::opt_text(i.description_yjs), s.shown));
    let m = put(m, "completion_prompt"@, str_entry(text::opt_text(i.completion_prompt)));
    let m = put(m, "completion_note"@, blob_entry(text::opt_text(i.completion_note_yjs), s.shown));
    let m = put(
        m,
        "created_by"@,
        Some(ydoc::ystr(items::creator(i.created_by, s.users, s.importer))),
    );
    let m = put(m, "created_at"@, Some(ydoc::ystr(items::text_or(i.created_at, s.now))));
    put(m, "updated_at"@, Some(ydoc::ystr(items::text_or(i.updated_at, s.now))))
}

proof fn lemma_item_entries(i: ExportItem, s: Setting)
    ensures
        items::item_tree(i, s) == YTree::Dict(item_entries(i, s)),
{
    lemma_sets();
    lemma_import_sets();
}

proof fn lemma_item_at(i: ExportItem, s: Setting)
    ensures
        at(item_entries(i, s), "id"@) == Some(ydoc::ystr(i.id@)),
        at(item_entries(i, s), "title"@) == Some(ydoc::ystr(i.title@)),
        at(item_entries(i, s), "short_id"@) == number_entry(i.short_id),
        at(item_entries(i, s), "labels"@) == Some(config::str_map_tree(i.labels@)),
        at(item_entries(i, s), "due_date"@) == str_entry(text::opt_text(i.due_date)),
        at(item_entries(i, s), "start_date"@) == str_entry(text::opt_text(i.start_date)),
        at(item_entries(i, s), "milestone_id"@) == str_entry(text::opt_text(i.milestone_id)),
        at(item_entries(i, s), "cycle_id"@) == str_entry(text::opt_text(i.cycle_id)),
        at(item_entries(i, s), "parent_id"@) == str_entry(text::opt_text(i.parent_id)),
        at(item_entries(i, s), "duplicate_of"@) == str_entry(text::opt_text(i.duplicate_of)),
        at(item_entries(i, s), "blocked_by"@) == strs_entry(i.blocked_by@),
        at(item_entries(i, s), "assignees"@) == people_entry(
            items::mapped_ids(i.assignee_user_ids@, s.users),
            items::mapped_ids(i.assignee_team_ids@, s.teams),
        ),
        at(item_entries(i, s), "archived"@) == flag_entry(i.archived),
        at(item_entries(i, s), "archived_at"@) == time_entry(i.archived, items::archived_ms(i, s.now_ms)),
        at(item_entries(i, s), "description"@) == blob_entry(text::opt_text(i.description_yjs), s.shown),
        at(item_entries(i, s), "completion_prompt"@) == str_entry(text::opt_text(i.completion_prompt)),
        at(item_entries(i, s), "completion_note"@) == blob_entry(text::opt_text(i.completion_note_yjs), s.shown),
        at(item_entries(i, s), "created_by"@) == Some(ydoc::ystr(items::creator(i.created_by, s.users, s.importer))),
        at(item_entries(i, s), "created_at"@) == Some(ydoc::ystr(items::text_or(i.created_at, s.now))),
        at(item_entries(i, s), "updated_at"@) == Some(ydoc::ystr(items::text_or(i.updated_at, s.now))),
{
    lemma_at();
    lemma_item_keys();
}

proof fn lemma_item_fields(t: YTree, i: ExportItem, s: Setting, maps: ImportMaps)
    requires
        t == YTree::Dict(item_entries(i, s)),
        s.users == maps.user_map@,
        s.teams == maps.team_map@,
    ensures
        item_read_back(t, i, maps, s.importer, s.now),
        people_read_back(
            t,
            "assignees"@,
            targets(i.assignee_user_ids@, maps.user_map@),
            targets(i.assignee_team_ids@, maps.team_map@),
        ),
        archive_read_back(t, i, s.now_ms),
        blob_read_back(t, "description"@, i.description_yjs, s.shown),
        blob_read_back(t, "completion_note"@, i.completion_note_yjs, s.shown),
{
    lemma_item_at(i, s);
    lemma_entry(item_entries(i, s));
    lemma_people_keys();
    lemma_targets(i.assignee_user_ids@, maps.user_map@);
    lemma_targets(i.assignee_team_ids@, maps.team_map@);
    lemma_strs(targets(i.assignee_user_ids@, maps.user_map@));
    lemma_strs(targets(i.assignee_team_ids@, maps.team_map@));
    lemma_strs(text::texts(i.blocked_by@));
    lemma_str_map(i.labels@);
}

/// Every item of an export stands in the document that its flag calls for, under its own
/// id, with its own fields: each text under the key of its name, nothing where there is
/// none, users and teams as they are mapped, and the importer and the time of the import
/// where the export names no creator and no time. Of items with one id in one document
/// the last counts.
pub proof fn lemma_item_read_back(
    e: SpaceExport,
    new_space: Seq<char>,
    importer: Seq<char>,
    maps: ImportMaps,
    r: ImportBuildResult,
    now: Seq<char>,
    now_ms: int,
    doc_ids: Map<Seq<char>, String>,
    pairs: Seq<(String, String)>,
    shown: Map<Seq<char>, Vec<XmlIn>>,
    k: int,
)
    requires
        space::import_with(e, new_space, importer, maps, r, now, now_ms, doc_ids, pairs, shown),
        is_last_item(e.items@, k),
    ensures
        items_in(r, e.items@[k].deep_archived).contains_key(e.items@[k].id@),
        ({
            let i = e.items@[k];
            let t = items_in(r, i.deep_archived)[i.id@];
            &&& item_read_back(t, i, maps, importer, now)
            &&& people_read_back(
                t,
                "assignees"@,
                targets(i.assignee_user_ids@, maps.user_map@),
                targets(i.assignee_team_ids@, maps.team_map@),
            )
            &&& archive_read_back(t, i, now_ms)
            &&& blob_read_back(t, "description"@, i.description_yjs, shown)
            &&& blob_read_back(t, "completion_note"@, i.completion_note_yjs, shown)
        }),
{
    let s = space::setting(importer, maps, now, now_ms, shown);
    lemma_item_entry(e.items@, k, s);
    lemma_item_entries(e.items@[k], s);
    lemma_item_fields(items::item_tree(e.items@[k], s), e.items@[k], s, maps);
    if e.items@[k].deep_archived {
        assert(space::any_deep(e.items@));
    }
}

// ---------------------------------------------------------------------------
// Comments
// ---------------------------------------------------------------------------

/// The threads of the items that are not deep-archived of an imported space, or of those
/// that are.
pub open spec fn threads_in(r: ImportBuildResult, deep: bool, key: Seq<char>) -> Map<
    Seq<char>,
    YTree,
> {
    match if deep {
        r.archive_doc
    } else {
        r.comments_doc
    } {
        Some(doc) => ydoc::dict_under(ydoc::doc_roots(doc), key),
        None => Map::empty(),
    }
}

/// Whether the item has comments, and no later item with comments and the same id stands
/// in the same document.
pub open spec fn is_last_thread(v: Seq<ExportItem>, k: int) -> bool {
    &&& 0 <= k < v.len()
    &&& v[k].comments@.len() > 0
    &&& forall|j: int|
        k < j < v.len() && v[j].deep_archived == v[k].deep_archived && v[j].comments@.len() > 0
            ==> (#[trigger] v[j]).id@ != v[k].id@
}

/// Whether no later comment of the thread has the same id.
pub open spec fn is_last_comment(v: Seq<ExportComment>, c: int) -> bool {
    &&& 0 <= c < v.len()
    &&& forall|j: int| c < j < v.len() ==> (#[trigger] v[j]).id@ != v[c].id@
}

proof fn lemma_thread_entry(v: Seq<ExportItem>, k: int, s: Setting)
    requires
        is_last_thread(v, k),
    ensures
        ({
            let (t, o) = (
                items::threads_tree(v, v[k].deep_archived, s),
                items::threads_order(v, v[k].deep_archived),
            );
            &&& t.contains_key(v[k].id@)
            &&& t[v[k].id@] == YTree::Dict(items::thread_tree(v[k].comments@, v[k].id@, s))
            &&& o.contains_key(v[k].id@)
            &&& o[v[k].id@] == YTree::List(items::thread_ids(v[k].comments@))
        }),
    decreases v.len(),
{
    if k < v.len() - 1 {
        let before = v.drop_last();
        assert forall|j: int|
            k < j < before.len() && before[j].deep_archived == before[k].deep_archived
                && before[j].comments@.len() > 0 implies (#[trigger] before[j]).id@
            != before[k].id@ by {
            assert(before[j] == v[j]);
        }
        lemma_thread_entry(before, k, s);
        assert(v[v.len() - 1] == v.last());
    }
}

proof fn lemma_comment_entry(v: Seq<ExportComment>, c: int, item_id: Seq<char>, s: Setting)
    requires
        is_last_comment(v, c),
    ensures
        items::thread_tree(v, item_id, s).contains_key(v[c].id@),
        items::thread_tree(v, item_id, s)[v[c].id@] == items::comment_tree(v[c], item_id, s),
    decreases v.len(),
{
    if c < v.len() - 1 {
        let before = v.drop_last();
        assert forall|j: int| c < j < before.len() implies (#[trigger] before[j]).id@
            != before[c].id@ by {
            assert(before[j] == v[j]);
        }
        lemma_comment_entry(before, c, item_id, s);
        assert(v[v.len() - 1] == v.last());
    }
}

proof fn lemma_comment_keys()
    ensures
        "id"@ != "item_id"@,
        "id"@ != "author_id"@,
        "id"@ != "author_name"@,
        "id"@ != "created_at"@,
        "id"@ != "edited_at"@,
        "id"@ != "deleted"@,
        "id"@ != "deleted_at"@,
        "id"@ != "parent_id"@,
        "id"@ != "content"@,
        "item_id"@ != "author_id"@,
        "item_id"@ != "author_name"@,
        "item_id"@ != "created_at"@,
        "item_id"@ != "edited_at"@,
        "item_id"@ != "deleted"@,
        "item_id"@ != "deleted_at"@,
        "item_id"@ != "parent_id"@,
        "item_id"@ != "content"@,
        "author_id"@ != "author_name"@,
        "author_id"@ != "created_at"@,
        "author_id"@ != "edited_at"@,
        "author_id"@ != "deleted"@,
        "author_id"@ != "deleted_at"@,
        "author_id"@ != "parent_id"@,
        "author_id"@ != "content"@,
        "author_name"@ != "created_at"@,
        "author_name"@ != "edited_at"@,
        "author_name"@ != "deleted"@,
        "author_name"@ != "deleted_at"@,
        "author_name"@ != "parent_id"@,
        "author_name"@ != "content"@,
        "created_at"@ != "edited_at"@,
        "created_at"@ != "deleted"@,
        "created_at"@ != "deleted_at"@,
        "created_at"@ != "parent_id"@,
        "created_at"@ != "content"@,
        "edited_at"@ != "deleted"@,
        "edited_at"@ != "deleted_at"@,
        "edited_at"@ != "parent_id"@,
        "edited_at"@ != "content"@,
        "deleted"@ != "deleted_at"@,
        "deleted"@ != "parent_id"@,
        "deleted"@ != "content"@,
        "deleted_at"@ != "parent_id"@,
        "deleted_at"@ != "content"@,
        "parent_id"@ != "content"@,
{
    reveal_strlit("id");
    reveal_strlit("item_id");
    reveal_strlit("author_id");
    reveal_strlit("author_name");
    reveal_strlit("created_at");
    reveal_strlit("edited_at");
    reveal_strlit("deleted");
    reveal_strlit("deleted_at");
    reveal_strlit("parent_id");
    reveal_strlit("content");
    assert("id"@.len() == 2);
    assert("item_id"@.len() == 7);
    assert("author_id"@.len() == 9);
    assert("author_name"@.len() == 11);
    assert("created_at"@.len() == 10);
    assert("edited_at"@.len() == 9);
    assert("deleted"@.len() == 7);
    assert("deleted_at"@.len() == 10);
    assert("parent_id"@.len() == 9);
    assert("content"@.len() == 7);
    assert("item_id"@[0] == 'i');
    assert("deleted"@[0] == 'd');
    assert("content"@[0] == 'c');
    assert("author_id"@[0] == 'a');
    assert("edited_at"@[0] == 'e');
    assert("parent_id"@[0] == 'p');
    assert("created_at"@[0] == 'c');
    assert("deleted_at"@[0] == 'd');
}

/// The entries, one after the other.
spec fn comment_entries(c: ExportComment, item_id: Seq<char>, s: Setting) -> Map<Seq<char>, YTree> {
    let m = put(Map::empty(), "id"@, Some(ydoc::ystr(c.id@)));
    let m = put(m, "item_id"@, Some(ydoc::ystr(item_id)));
    let m = put(m, "author_id"@, Some(ydoc::ystr(items::comment_author(c, s.users))));
    let m = put(m, "author_name"@, Some(ydoc::ystr(items::text_or(c.author_name, "Unknown user"@))));
    let m = put(m, "created_at"@, str_entry(text::opt_text(c.created_at)));
    let m = put(m, "edited_at"@, str_entry(text::opt_text(c.edited_at)));
    let m = put(m, "deleted"@, Some(ydoc::ybool(c.deleted)));
    let m = put(m, "deleted_at"@, str_entry(text::opt_text(c.deleted_at)));
    let m = put(m, "parent_id"@, str_entry(text::opt_text(c.parent_id)));
    put(m, "content"@, Some(YTree::Fragment(match c.content_yjs { Some(b) => blob::blob_nodes(b@, s.shown), None => seq![] })))
}

proof fn lemma_comment_entries(c: ExportComment, item_id: Seq<char>, s: Setting)
    ensures
        items::comment_tree(c, item_id, s) == YTree::Dict(comment_entries(c, item_id, s)),
{
    lemma_sets();
}

proof fn lemma_comment_at(c: ExportComment, item_id: Seq<char>, s: Setting)
    ensures
        at(comment_entries(c, item_id, s), "id"@) == Some(ydoc::ystr(c.id@)),
        at(comment_entries(c, item_id, s), "item_id"@) == Some(ydoc::ystr(item_id)),
        at(comment_entries(c, item_id, s), "author_id"@) == Some(ydoc::ystr(items::comment_author(c, s.users))),
        at(comment_entries(c, item_id, s), "author_name"@) == Some(ydoc::ystr(items::text_or(c.author_name, "Unknown user"@))),
        at(comment_entries(c, item_id, s), "created_at"@) == str_entry(text::opt_text(c.created_at)),
        at(comment_entries(c, item_id, s), "edited_at"@) == str_entry(text::opt_text(c.edited_at)),
        at(comment_entries(c, item_id, s), "deleted"@) == Some(ydoc::ybool(c.deleted)),
        at(comment_entries(c, item_id, s), "deleted_at"@) == str_entry(text::opt_text(c.deleted_at)),
        at(comment_entries(c, item_id, s), "parent_id"@) == str_entry(text::opt_text(c.parent_id)),
        at(comment_entries(c, item_id, s), "content"@) == Some(YTree::Fragment(match c.content_yjs { Some(b) => blob::blob_nodes(b@, s.shown), None => seq![] })),
{
    lemma_at();
    lemma_comment_keys();
}

/// The fields of a comment as they stand in a document.
pub open spec fn comment_read_back(
    t: YTree,
    c: ExportComment,
    item_id: Seq<char>,
    maps: ImportMaps,
    shown: Map<Seq<char>, Vec<XmlIn>>,
) -> bool {
    &&& has_text(t, "id"@, c.id@)
    &&& has_text(t, "item_id"@, item_id)
    &&& has_text(
        t,
        "author_id"@,
        if maps.user_map@.contains_key(c.author_id@) {
            maps.user_map@[c.author_id@]@
        } else {
            codec::nil_uuid_text()
        },
    )
    &&& (match c.author_name {
        Some(n) => has_text(t, "author_name"@, n@),
        None => has_text(t, "author_name"@, "Unknown user"@),
    })
    &&& has_opt(t, "created_at"@, c.created_at)
    &&& has_opt(t, "edited_at"@, c.edited_at)
    &&& has_bool(t, "deleted"@, c.deleted)
    &&& has_opt(t, "deleted_at"@, c.deleted_at)
    &&& has_opt(t, "parent_id"@, c.parent_id)
    &&& (match c.content_yjs {
        Some(b) => has_fragment(t, "content"@, blob::blob_nodes(b@, shown)),
        None => has_fragment(t, "content"@, seq![]),
    })
}

proof fn lemma_thread_ids(v: Seq<ExportComment>)
    ensures
        are_texts(
            items::thread_ids(v),
            v.filter(|c: ExportComment| c.parent_id is None && !c.deleted).map_values(
                |c: ExportComment| c.id@,
            ),
        ),
    decreases v.len(),
{
    reveal(Seq::filter);
    if v.len() > 0 {
        lemma_thread_ids(v.drop_last());
    }
}

/// Every comment of an export stands in the thread of its item, in the document that the
/// item calls for, under its own id and with its own fields: its author as they are
/// mapped, or nobody, with the name that the export gives. The order of the thread lists
/// the comments that are neither replies nor deleted. Of comments with one id in a thread
/// the last counts, and of items with comments and one id in one document.
pub proof fn lemma_comment_read_back(
    e: SpaceExport,
    new_space: Seq<char>,
    importer: Seq<char>,
    maps: ImportMaps,
    r: ImportBuildResult,
    now: Seq<char>,
    now_ms: int,
    doc_ids: Map<Seq<char>, String>,
    pairs: Seq<(String, String)>,
    shown: Map<Seq<char>, Vec<XmlIn>>,
    k: int,
    c: int,
)
    requires
        space::import_with(e, new_space, importer, maps, r, now, now_ms, doc_ids, pairs, shown),
        is_last_thread(e.items@, k),
        is_last_comment(e.items@[k].comments@, c),
    ensures
        ({
            let i = e.items@[k];
            let x = i.comments@[c];
            let threads = threads_in(r, i.deep_archived, "threads"@);
            let orders = threads_in(r, i.deep_archived, "threads_order"@);
            &&& threads.contains_key(i.id@)
            &&& (match entry(threads[i.id@], x.id@) {
                Some(t) => comment_read_back(t, x, i.id@, maps, shown),
                None => false,
            })
            &&& orders.contains_key(i.id@)
            &&& (match orders[i.id@] {
                YTree::List(ids) => are_texts(
                    ids,
                    i.comments@.filter(
                        |c: ExportComment| c.parent_id is None && !c.deleted,
                    ).map_values(|c: ExportComment| c.id@),
                ),
                _ => false,
            })
        }),
{
    let s = space::setting(importer, maps, now, now_ms, shown);
    let i = e.items@[k];
    lemma_thread_entry(e.items@, k, s);
    lemma_comment_entry(i.comments@, c, i.id@, s);
    lemma_thread_ids(i.comments@);
    lemma_comment_entries(i.comments@[c], i.id@, s);
    lemma_comment_at(i.comments@[c], i.id@, s);
    lemma_entry(comment_entries(i.comments@[c], i.id@, s));
    if i.deep_archived {
        assert(space::any_deep(e.items@));
    } else {
        assert(items::has_thread(e.items@[k], false));
        assert(space::any_thread(e.items@));
    }
}

/// The order of the items lists the ids of those that stand in the document, in order.
pub proof fn lemma_items_listed(v: Seq<ExportItem>, deep: bool)
    ensures
        are_texts(
            items::item_ids(v, deep),
            v.filter(|i: ExportItem| i.deep_archived == deep).map_values(|i: ExportItem| i.id@),
        ),
    decreases v.len(),
{
    reveal(Seq::filter);
    if v.len() > 0 {
        lemma_items_listed(v.drop_last(), deep);
    }
}

/// The space document lists the items that are not deep-archived in the order of the
/// export, and the archive document those that are.
pub proof fn lemma_item_order_read_back(
    e: SpaceExport,
    new_space: Seq<char>,
    importer: Seq<char>,
    maps: ImportMaps,
    r: ImportBuildResult,
    now: Seq<char>,
    now_ms: int,
    doc_ids: Map<Seq<char>, String>,
    pairs: Seq<(String, String)>,
    shown: Map<Seq<char>, Vec<XmlIn>>,
)
    requires
        space::import_with(e, new_space, importer, maps, r, now, now_ms, doc_ids, pairs, shown),
    ensures
        are_texts(
            ydoc::list_under(ydoc::doc_roots(r.space_doc), "items_order"@),
            e.items@.filter(|i: ExportItem| i.deep_archived == false).map_values(
                |i: ExportItem| i.id@,
            ),
        ),
        r.archive_doc is Some <==> exists|i: int|
            0 <= i < e.items@.len() && (#[trigger] e.items@[i]).deep_archived,
        r.archive_doc matches Some(doc) ==> are_texts(
            ydoc::list_under(ydoc::doc_roots(doc), "items_order"@),
            e.items@.filter(|i: ExportItem| i.deep_archived == true).map_values(
                |i: ExportItem| i.id@,
            ),
        ),
        r.comments_doc is Some <==> exists|i: int|
            0 <= i < e.items@.len() && !(#[trigger] e.items@[i]).deep_archived
                && e.items@[i].comments@.len() > 0,
{
    lemma_items_listed(e.items@, false);
    lemma_items_listed(e.items@, true);
    if space::any_thread(e.items@) {
        let i = choose|i: int|
            0 <= i < e.items@.len() && items::has_thread(#[trigger] e.items@[i], false);
        assert(!e.items@[i].deep_archived && e.items@[i].comments@.len() > 0);
    }
    if exists|i: int|
        0 <= i < e.items@.len() && !(#[trigger] e.items@[i]).deep_archived
            && e.items@[i].comments@.len() > 0 {
        let i = choose|i: int|
            0 <= i < e.items@.len() && !(#[trigger] e.items@[i]).deep_archived
                && e.items@[i].comments@.len() > 0;
        assert(items::has_thread(e.items@[i], false));
    }
}

/// The greatest short id of an import is the short id of an item and no item has a greater
/// one; it is zero where no item has any.
pub proof fn lemma_max_short_id_kept(v: Seq<ExportItem>)
    ensures
        forall|i: int|
            0 <= i < v.len() && (#[trigger] v[i]).short_id is Some ==> v[i].short_id->0
                <= space::max_short_id_of(v),
        (exists|i: int| 0 <= i < v.len() && (#[trigger] v[i]).short_id is Some) ==> exists|i: int|
            0 <= i < v.len() && (#[trigger] v[i]).short_id == Some(space::max_short_id_of(v)),
        (forall|i: int| 0 <= i < v.len() ==> (#[trigger] v[i]).short_id is None)
            ==> space::max_short_id_of(v) == 0,
{
    assert forall|i: int| 0 <= i < v.len() && (#[trigger] v[i]).short_id is Some implies
        v[i].short_id->0 <= space::max_short_id_of(v) by {
        space::lemma_max_short_id(v, i);
    }
    lemma_greatest_from(v);
    if exists|i: int| 0 <= i < v.len() && (#[trigger] v[i]).short_id is Some {
        let i = choose|i: int| 0 <= i < v.len() && (#[trigger] v[i]).short_id is Some;
        space::lemma_max_short_id(v, i);
    }
}

proof fn lemma_greatest_from(v: Seq<ExportItem>)
    ensures
        space::greatest_short_id(v) is Some ==> exists|i: int|
            0 <= i < v.len() && (#[trigger] v[i]).short_id == space::greatest_short_id(v),
    decreases v.len(),
{
    if v.len() > 0 {
        let w = v.drop_last();
        lemma_greatest_from(w);
        if space::greatest_short_id(v) is Some {
            if space::greatest_short_id(v) == space::greatest_short_id(w) {
                let i = choose|i: int|
                    0 <= i < w.len() && (#[trigger] w[i]).short_id == space::greatest_short_id(w);
                assert(v[i] == w[i]);
            } else {
                assert(v[v.len() - 1].short_id == space::greatest_short_id(v));
            }
        }
    }
}

// ---------------------------------------------------------------------------
// Documents
// ---------------------------------------------------------------------------

proof fn lemma_document_keys()
    ensures
        "id"@ != "title"@,
        "id"@ != "labels"@,
        "id"@ != "archived"@,
        "id"@ != "archived_at"@,
        "id"@ != "owners"@,
        "id"@ != "parent_item_id"@,
        "id"@ != "parent_milestone_id"@,
        "id"@ != "review_cadence_days"@,
        "id"@ != "last_reviewed_at"@,
        "id"@ != "is_template"@,
        "id"@ != "forked_from"@,
        "id"@ != "created_by"@,
        "id"@ != "created_at"@,
        "id"@ != "updated_at"@,
        "title"@ != "labels"@,
        "title"@ != "archived"@,
        "title"@ != "archived_at"@,
        "title"@ != "owners"@,
        "title"@ != "parent_item_id"@,
        "title"@ != "parent_milestone_id"@,
        "title"@ != "review_cadence_days"@,
        "title"@ != "last_reviewed_at"@,
        "title"@ != "is_template"@,
        "title"@ != "forked_from"@,
        "title"@ != "created_by"@,
        "title"@ != "created_at"@,
        "title"@ != "updated_at"@,
        "labels"@ != "archived"@,
        "labels"@ != "archived_at"@,
        "labels"@ != "owners"@,
        "labels"@ != "parent_item_id"@,
        "labels"@ != "parent_milestone_id"@,
        "labels"@ != "review_cadence_days"@,
        "labels"@ != "last_reviewed_at"@,
        "labels"@ != "is_template"@,
        "labels"@ != "forked_from"@,
        "labels"@ != "created_by"@,
        "labels"@ != "created_at"@,
        "labels"@ != "updated_at"@,
        "archived"@ != "archived_at"@,
        "archived"@ != "owners"@,
        "archived"@ != "parent_item_id"@,
        "archived"@ != "parent_milestone_id"@,
        "archived"@ != "review_cadence_days"@,
        "archived"@ != "last_reviewed_at"@,
        "archived"@ != "is_template"@,
        "archived"@ != "forked_from"@,
        "archived"@ != "created_by"@,
        "archived"@ != "created_at"@,
        "archived"@ != "updated_at"@,
        "archived_at"@ != "owners"@,
        "archived_at"@ != "parent_item_id"@,
        "archived_at"@ != "parent_milestone_id"@,
        "archived_at"@ != "review_cadence_days"@,
        "archived_at"@ != "last_reviewed_at"@,
        "archived_at"@ != "is_template"@,
        "archived_at"@ != "forked_from"@,
        "archived_at"@ != "created_by"@,
        "archived_at"@ != "created_at"@,
        "archived_at"@ != "updated_at"@,
        "owners"@ != "parent_item_id"@,
        "owners"@ != "parent_milestone_id"@,
        "owners"@ != "review_cadence_days"@,
        "owners"@ != "last_reviewed_at"@,
        "owners"@ != "is_template"@,
        "owners"@ != "forked_from"@,
        "owners"@ != "created_by"@,
        "owners"@ != "created_at"@,
        "owners"@ != "updated_at"@,
        "parent_item_id"@ != "parent_milestone_id"@,
        "parent_item_id"@ != "review_cadence_days"@,
        "parent_item_id"@ != "last_reviewed_at"@,
        "parent_item_id"@ != "is_template"@,
        "parent_item_id"@ != "forked_from"@,
        "parent_item_id"@ != "created_by"@,
        "parent_item_id"@ != "created_at"@,
        "parent_item_id"@ != "updated_at"@,
        "parent_milestone_id"@ != "review_cadence_days"@,
        "parent_milestone_id"@ != "last_reviewed_at"@,
        "parent_milestone_id"@ != "is_template"@,
        "parent_milestone_id"@ != "forked_from"@,
        "parent_milestone_id"@ != "created_by"@,
        "parent_milestone_id"@ != "created_at"@,
        "parent_milestone_id"@ != "updated_at"@,
        "review_cadence_days"@ != "last_reviewed_at"@,
        "review_cadence_days"@ != "is_template"@,
        "review_cadence_days"@ != "forked_from"@,
        "review_cadence_days"@ != "created_by"@,
        "review_cadence_days"@ != "created_at"@,
        "review_cadence_days"@ != "updated_at"@,
        "last_reviewed_at"@ != "is_template"@,
        "last_reviewed_at"@ != "forked_from"@,
        "last_reviewed_at"@ != "created_by"@,
        "last_reviewed_at"@ != "created_at"@,
        "last_reviewed_at"@ != "updated_at"@,
        "is_template"@ != "forked_from"@,
        "is_template"@ != "created_by"@,
        "is_template"@ != "created_at"@,
        "is_template"@ != "updated_at"@,
        "forked_from"@ != "created_by"@,
        "forked_from"@ != "created_at"@,
        "forked_from"@ != "updated_at"@,
        "created_by"@ != "created_at"@,
        "created_by"@ != "updated_at"@,
        "created_at"@ != "updated_at"@,
{
    reveal_strlit("id");
    reveal_strlit("title");
    reveal_strlit("labels");
    reveal_strlit("archived");
    reveal_strlit("archived_at");
    reveal_strlit("owners");
    reveal_strlit("parent_item_id");
    reveal_strlit("parent_milestone_id");
    reveal_strlit("review_cadence_days");
    reveal_strlit("last_reviewed_at");
    reveal_strlit("is_template");
    reveal_strlit("forked_from");
    reveal_strlit("created_by");
    reveal_strlit("created_at");
    reveal_strlit("updated_at");
    assert("id"@.len() == 2);
    assert("title"@.len() == 5);
    assert("labels"@.len() == 6);
    assert("archived"@.len() == 8);
    assert("archived_at"@.len() == 11);
    assert("owners"@.len() == 6);
    assert("parent_item_id"@.len() == 14);
    assert("parent_milestone_id"@.len() == 19);
    assert("review_cadence_days"@.len() == 19);
    assert("last_reviewed_at"@.len() == 16);
    assert("is_template"@.len() == 11);
    assert("forked_from"@.len() == 11);
    assert("created_by"@.len() == 10);
    assert("created_at"@.len() == 10);
    assert("updated_at"@.len() == 10);
    assert("labels"@[0] == 'l');
    assert("owners"@[0] == 'o');
    assert("archived_at"@[0] == 'a');
    assert("is_template"@[0] == 'i');
    assert("forked_from"@[0] == 'f');
    assert("parent_milestone_id"@[0] == 'p');
    assert("review_cadence_days"@[0] == 'r');
    assert("created_by"@[0] == 'c');
    assert("created_at"@[0] == 'c');
    assert("updated_at"@[0] == 'u');
    assert("created_by"@[8] == 'b');
    assert("created_at"@[8] == 'a');
}

/// The entries, one after the other.
spec fn document_entries(d: ExportDocument, new_id: Seq<char>, s: Setting, a: Anchors) -> Map<Seq<char>, YTree> {
    let m = put(Map::empty(), "id"@, Some(ydoc::ystr(new_id)));
    let m = put(m, "title"@, Some(ydoc::ystr(d.title@)));
    let m = put(m, "labels"@, Some(config::str_map_tree(d.labels@)));
    let m = put(m, "archived"@, flag_entry(d.archived));
    let m = put(m, "archived_at"@, if d.archived { str_entry(text::opt_text(d.archived_at)) } else { None });
    let m = put(m, "owners"@, people_entry(items::mapped_ids(d.owner_user_ids@, s.users), items::mapped_ids(d.owner_team_ids@, s.teams)));
    let m = put(m, "parent_item_id"@, str_entry(documents::parent_item(d, a)));
    let m = put(m, "parent_milestone_id"@, str_entry(documents::parent_milestone(d, a)));
    let m = put(m, "review_cadence_days"@, number_entry(d.review_cadence_days));
    let m = put(m, "last_reviewed_at"@, str_entry(text::opt_text(d.last_reviewed_at)));
    let m = put(m, "is_template"@, flag_entry(d.is_template));
    let m = put(m, "forked_from"@, str_entry(documents::fork_source(d, a)));
    let m = put(m, "created_by"@, Some(ydoc::ystr(items::creator(d.created_by, s.users, s.importer))));
    let m = put(m, "created_at"@, Some(ydoc::ystr(items::text_or(d.created_at, s.now))));
    put(m, "updated_at"@, Some(ydoc::ystr(items::text_or(d.updated_at, s.now))))
}

proof fn lemma_document_entries(d: ExportDocument, new_id: Seq<char>, s: Setting, a: Anchors)
    ensures
        documents::document_tree(d, new_id, s, a) == YTree::Dict(document_entries(d, new_id, s, a)),
{
    lemma_sets();
    lemma_import_sets();
    lemma_archive_time();
}

proof fn lemma_document_at(d: ExportDocument, new_id: Seq<char>, s: Setting, a: Anchors)
    ensures
        at(document_entries(d, new_id, s, a), "id"@) == Some(ydoc::ystr(new_id)),
        at(document_entries(d, new_id, s, a), "title"@) == Some(ydoc::ystr(d.title@)),
        at(document_entries(d, new_id, s, a), "labels"@) == Some(config::str_map_tree(d.labels@)),
        at(document_entries(d, new_id, s, a), "archived"@) == flag_entry(d.archived),
        at(document_entries(d, new_id, s, a), "archived_at"@) == if d.archived { str_entry(text::opt_text(d.archived_at)) } else { None },
        at(document_entries(d, new_id, s, a), "owners"@) == people_entry(items::mapped_ids(d.owner_user_ids@, s.users), items::mapped_ids(d.owner_team_ids@, s.teams)),
        at(document_entries(d, new_id, s, a), "parent_item_id"@) == str_entry(documents::parent_item(d, a)),
        at(document_entries(d, new_id, s, a), "parent_milestone_id"@) == str_entry(documents::parent_milestone(d, a)),
        at(document_entries(d, new_id, s, a), "review_cadence_days"@) == number_entry(d.review_cadence_days),
        at(document_entries(d, new_id, s, a), "last_reviewed_at"@) == str_entry(text::opt_text(d.last_reviewed_at)),
        at(document_entries(d, new_id, s, a), "is_template"@) == flag_entry(d.is_template),
        at(document_entries(d, new_id, s, a), "forked_from"@) == str_entry(documents::fork_source(d, a)),
        at(document_entries(d, new_id, s, a), "created_by"@) == Some(ydoc::ystr(items::creator(d.created_by, s.users, s.importer))),
        at(document_entries(d, new_id, s, a), "created_at"@) == Some(ydoc::ystr(items::text_or(d.created_at, s.now))),
        at(document_entries(d, new_id, s, a), "updated_at"@) == Some(ydoc::ystr(items::text_or(d.updated_at, s.now))),
{
    lemma_at();
    lemma_document_keys();
}

proof fn lemma_archive_time()
    ensures
        forall|m: Map<Seq<char>, YTree>, on: bool, at: Option<Seq<char>>|
            #[trigger] documents::with_archive_time(m, on, at) == put(
                put(m, "archived"@, flag_entry(on)),
                "archived_at"@,
                if on {
                    str_entry(at)
                } else {
                    None
                },
            ),
{
    reveal(put);
}

/// Whether no later document gets the same new id.
pub open spec fn is_last_document(
    v: Seq<ExportDocument>,
    ids: Map<Seq<char>, String>,
    k: int,
) -> bool {
    &&& 0 <= k < v.len()
    &&& forall|j: int|
        k < j < v.len() && ids.contains_key(v[j].id@) ==> ids[(#[trigger] v[j]).id@]@
            != ids[v[k].id@]@
}

proof fn lemma_document_entry(v: Seq<ExportDocument>, k: int, s: Setting, a: Anchors)
    requires
        is_last_document(v, a.doc_ids, k),
        a.doc_ids.contains_key(v[k].id@),
    ensures
        ({
            let new_id = a.doc_ids[v[k].id@]@;
            &&& documents::documents_tree(v, s, a).contains_key(new_id)
            &&& documents::documents_tree(v, s, a)[new_id] == documents::document_tree(
                v[k],
                new_id,
                s,
                a,
            )
        }),
    decreases v.len(),
{
    if k < v.len() - 1 {
        let before = v.drop_last();
        assert forall|j: int|
            k < j < before.len() && a.doc_ids.contains_key(before[j].id@) implies a.doc_ids[(
        #[trigger] before[j]).id@]@ != a.doc_ids[before[k].id@]@ by {
            assert(before[j] == v[j]);
        }
        lemma_document_entry(before, k, s, a);
        assert(v[v.len() - 1] == v.last());
    }
}

/// The fields of a document as they stand in the space document.
pub open spec fn document_read_back(
    t: YTree,
    d: ExportDocument,
    e: SpaceExport,
    maps: ImportMaps,
    doc_ids: Map<Seq<char>, String>,
    importer: Seq<char>,
    now: Seq<char>,
) -> bool {
    &&& has_text(t, "id"@, doc_ids[d.id@]@)
    &&& has_text(t, "title"@, d.title@)
    &&& has_text_map(t, "labels"@, d.labels@)
    &&& has_flag(t, "archived"@, d.archived)
    &&& d.archived ==> has_opt(t, "archived_at"@, d.archived_at)
    &&& !d.archived ==> entry(t, "archived_at"@) is None
    &&& people_read_back(
        t,
        "owners"@,
        targets(d.owner_user_ids@, maps.user_map@),
        targets(d.owner_team_ids@, maps.team_map@),
    )
    &&& (match d.parent_item_id {
        Some(i) => if exists|x: int| 0 <= x < e.items@.len() && (#[trigger] e.items@[x]).id@ == i@ {
            has_text(t, "parent_item_id"@, i@)
        } else {
            entry(t, "parent_item_id"@) is None
        },
        None => entry(t, "parent_item_id"@) is None,
    })
    &&& (match d.parent_milestone_id {
        Some(i) => if e.milestones.definitions@.contains_key(i@) {
            has_text(t, "parent_milestone_id"@, i@)
        } else {
            entry(t, "parent_milestone_id"@) is None
        },
        None => entry(t, "parent_milestone_id"@) is None,
    })
    &&& (match d.review_cadence_days {
        Some(n) => has_number(t, "review_cadence_days"@, n as int),
        None => entry(t, "review_cadence_days"@) is None,
    })
    &&& has_opt(t, "last_reviewed_at"@, d.last_reviewed_at)
    &&& has_flag(t, "is_template"@, d.is_template)
    &&& (match d.forked_from {
        Some(f) => if doc_ids.contains_key(f@) {
            has_text(t, "forked_from"@, doc_ids[f@]@)
        } else {
            entry(t, "forked_from"@) is None
        },
        None => entry(t, "forked_from"@) is None,
    })
    &&& (match d.created_by {
        Some(u) => has_text(
            t,
            "created_by"@,
            if maps.user_map@.contains_key(u@) {
                maps.user_map@[u@]@
            } else {
                importer
            },
        ),
        None => has_text(t, "created_by"@, importer),
    })
    &&& (match d.created_at {
        Some(x) => has_text(t, "created_at"@, x@),
        None => has_text(t, "created_at"@, now),
    })
    &&& (match d.updated_at {
        Some(x) => has_text(t, "updated_at"@, x@),
        None => has_text(t, "updated_at"@, now),
    })
}

/// Every document of an export stands in the space document under its new id, with its own
/// fields: its owners as they are mapped, its parents where they are imported, and the new
/// id of the document that it was forked from. The order and the manifest list all
/// documents in the order of the export.
pub proof fn lemma_document_read_back(
    e: SpaceExport,
    new_space: Seq<char>,
    importer: Seq<char>,
    maps: ImportMaps,
    r: ImportBuildResult,
    now: Seq<char>,
    now_ms: int,
    doc_ids: Map<Seq<char>, String>,
    pairs: Seq<(String, String)>,
    shown: Map<Seq<char>, Vec<XmlIn>>,
    k: int,
)
    requires
        space::import_with(e, new_space, importer, maps, r, now, now_ms, doc_ids, pairs, shown),
        is_last_document(e.documents@, doc_ids, k),
    ensures
        ({
            let d = e.documents@[k];
            let docs = ydoc::dict_under(ydoc::doc_roots(r.space_doc), "documents"@);
            &&& doc_ids.contains_key(d.id@)
            &&& docs.contains_key(doc_ids[d.id@]@)
            &&& document_read_back(
                docs[doc_ids[d.id@]@],
                d,
                e,
                maps,
                doc_ids,
                importer,
                now,
            )
        }),
        are_texts(
            ydoc::list_under(ydoc::doc_roots(r.space_doc), "documents_order"@),
            e.documents@.map_values(|d: ExportDocument| doc_ids[d.id@]@),
        ),
        r.document_manifest@.len() == e.documents@.len(),
        forall|i: int|
            0 <= i < e.documents@.len() ==> (#[trigger] r.document_manifest@[i]).new_id@
                == doc_ids[e.documents@[i].id@]@ && r.document_manifest@[i].title@
                == e.documents@[i].title@,
{
    let s = space::setting(importer, maps, now, now_ms, shown);
    let a = Anchors { doc_ids, items: e.items@, milestones: e.milestones.definitions@ };
    let v = e.documents@;
    let d = v[k];
    assert forall|i: int| 0 <= i < v.len() implies doc_ids.contains_key((#[trigger] v[i]).id@) by {}
    lemma_document_entry(v, k, s, a);
    lemma_document_entries(d, doc_ids[d.id@]@, s, a);
    lemma_document_at(d, doc_ids[d.id@]@, s, a);
    lemma_entry(document_entries(d, doc_ids[d.id@]@, s, a));
    lemma_people_keys();
    lemma_targets(d.owner_user_ids@, maps.user_map@);
    lemma_targets(d.owner_team_ids@, maps.team_map@);
    lemma_strs(targets(d.owner_user_ids@, maps.user_map@));
    lemma_strs(targets(d.owner_team_ids@, maps.team_map@));
    lemma_str_map(d.labels@);
    lemma_documents_listed(v, doc_ids);
    let views = instantiator::manifest_view(r.document_manifest@);
    assert(views.len() == r.document_manifest@.len());
    assert forall|i: int| 0 <= i < v.len() implies (#[trigger] r.document_manifest@[i]).new_id@
        == doc_ids[v[i].id@]@ && r.document_manifest@[i].title@ == v[i].title@ by {
        assert(views[i] == (r.document_manifest@[i].new_id@, r.document_manifest@[i].title@));
    }
}

proof fn lemma_documents_listed(v: Seq<ExportDocument>, ids: Map<Seq<char>, String>)
    requires
        forall|i: int| 0 <= i < v.len() ==> ids.contains_key((#[trigger] v[i]).id@),
    ensures
        are_texts(
            documents::document_ids(v, ids),
            v.map_values(|d: ExportDocument| ids[d.id@]@),
        ),
        documents::manifest_of(v, ids) == v.map_values(
            |d: ExportDocument| (ids[d.id@]@, d.title@),
        ),
    decreases v.len(),
{
    if v.len() > 0 {
        let w = v.drop_last();
        assert forall|i: int| 0 <= i < w.len() implies ids.contains_key((#[trigger] w[i]).id@) by {
            assert(w[i] == v[i]);
        }
        lemma_documents_listed(w, ids);
        assert(ids.contains_key(v[v.len() - 1].id@));
    }
    assert(documents::manifest_of(v, ids) =~= v.map_values(
        |d: ExportDocument| (ids[d.id@]@, d.title@),
    ));
}

// ---------------------------------------------------------------------------
// The configuration
// ---------------------------------------------------------------------------

proof fn lemma_milestone_keys()
    ensures
        "id"@ != "name"@,
        "id"@ != "description"@,
        "id"@ != "deadline"@,
        "id"@ != "deprecated"@,
        "name"@ != "description"@,
        "name"@ != "deadline"@,
        "name"@ != "deprecated"@,
        "description"@ != "deadline"@,
        "description"@ != "deprecated"@,
        "deadline"@ != "deprecated"@,
{
    reveal_strlit("id");
    reveal_strlit("name");
    reveal_strlit("description");
    reveal_strlit("deadline");
    reveal_strlit("deprecated");
    assert("id"@.len() == 2);
    assert("name"@.len() == 4);
    assert("description"@.len() == 11);
    assert("deadline"@.len() == 8);
    assert("deprecated"@.len() == 10);
}

/// The entries, one after the other.
spec fn milestone_entries(d: ExportMilestoneDef) -> Map<Seq<char>, YTree> {
    let m = put(Map::empty(), "id"@, Some(ydoc::ystr(d.id@)));
    let m = put(m, "name"@, Some(ydoc::ystr(d.name@)));
    let m = put(m, "description"@, str_entry(text::opt_text(d.description)));
    let m = put(m, "deadline"@, str_entry(text::opt_text(d.deadline)));
    put(m, "deprecated"@, flag_entry(d.deprecated))
}

proof fn lemma_milestone_entries(d: ExportMilestoneDef)
    ensures
        space_config::milestone_tree(d) == YTree::Dict(milestone_entries(d)),
{
    lemma_sets();
}

proof fn lemma_milestone_at(d: ExportMilestoneDef)
    ensures
        at(milestone_entries(d), "id"@) == Some(ydoc::ystr(d.id@)),
        at(milestone_entries(d), "name"@) == Some(ydoc::ystr(d.name@)),
        at(milestone_entries(d), "description"@) == str_entry(text::opt_text(d.description)),
        at(milestone_entries(d), "deadline"@) == str_entry(text::opt_text(d.deadline)),
        at(milestone_entries(d), "deprecated"@) == flag_entry(d.deprecated),
{
    lemma_at();
    lemma_milestone_keys();
}

/// Whether the order names a definition at `k`, and no later one with the same id.
pub open spec fn is_last_milestone(
    order: Seq<String>,
    defs: Map<Seq<char>, ExportMilestoneDef>,
    k: int,
) -> bool {
    &&& 0 <= k < order.len()
    &&& defs.contains_key(order[k]@)
    &&& forall|j: int|
        k < j < order.len() && defs.contains_key(order[j]@) ==> defs[(#[trigger] order[j])@].id@
            != defs[order[k]@].id@
}

proof fn lemma_milestones_at(order: Seq<String>, defs: Map<Seq<char>, ExportMilestoneDef>, k: int)
    requires
        is_last_milestone(order, defs, k),
    ensures
        space_config::milestone_trees(order, defs).contains_key(defs[order[k]@].id@),
        space_config::milestone_trees(order, defs)[defs[order[k]@].id@]
            == space_config::milestone_tree(defs[order[k]@]),
    decreases order.len(),
{
    if k < order.len() - 1 {
        let before = order.drop_last();
        assert forall|j: int|
            k < j < before.len() && defs.contains_key(before[j]@) implies defs[(
        #[trigger] before[j])@].id@ != defs[before[k]@].id@ by {
            assert(before[j] == order[j]);
        }
        lemma_milestones_at(before, defs, k);
        assert(order[order.len() - 1] == order.last());
    }
}

proof fn lemma_milestone_ids(order: Seq<String>, defs: Map<Seq<char>, ExportMilestoneDef>)
    ensures
        are_texts(
            space_config::milestone_ids(order, defs),
            order.filter(|k: String| defs.contains_key(k@)).map_values(|k: String| defs[k@].id@),
        ),
    decreases order.len(),
{
    reveal(Seq::filter);
    if order.len() > 0 {
        lemma_milestone_ids(order.drop_last(), defs);
    }
}

/// The milestones as they stand in a configuration: those that the order names, each under
/// its own id, with its deadline and its state, and their order.
pub open spec fn milestones_read_back(c: YTree, m: ExportMilestones) -> bool {
    &&& (match entry(c, "milestones"@) {
        Some(all) => forall|k: int| #[trigger]
            is_last_milestone(m.order@, m.definitions@, k) ==> {
                let d = m.definitions@[m.order@[k]@];
                match entry(all, d.id@) {
                    Some(t) => {
                        &&& has_text(t, "id"@, d.id@)
                        &&& has_text(t, "name"@, d.name@)
                        &&& has_opt(t, "description"@, d.description)
                        &&& has_opt(t, "deadline"@, d.deadline)
                        &&& has_flag(t, "deprecated"@, d.deprecated)
                    },
                    None => false,
                }
            },
        None => false,
    })
    &&& has_texts(
        c,
        "milestones_order"@,
        m.order@.filter(|k: String| m.definitions@.contains_key(k@)).map_values(
            |k: String| m.definitions@[k@].id@,
        ),
    )
}

proof fn lemma_milestones_read_back(c: YTree, m: ExportMilestones)
    requires
        entry(c, "milestones"@) == Some(
            YTree::Dict(space_config::milestone_trees(m.order@, m.definitions@)),
        ),
        entry(c, "milestones_order"@) == Some(
            YTree::List(space_config::milestone_ids(m.order@, m.definitions@)),
        ),
    ensures
        milestones_read_back(c, m),
{
    let all = entry(c, "milestones"@)->0;
    lemma_milestone_ids(m.order@, m.definitions@);
    assert forall|k: int| #[trigger] is_last_milestone(m.order@, m.definitions@, k) implies {
        let d = m.definitions@[m.order@[k]@];
        match entry(all, d.id@) {
            Some(t) => {
                &&& has_text(t, "id"@, d.id@)
                &&& has_text(t, "name"@, d.name@)
                &&& has_opt(t, "description"@, d.description)
                &&& has_opt(t, "deadline"@, d.deadline)
                &&& has_flag(t, "deprecated"@, d.deprecated)
            },
            None => false,
        }
    } by {
        let d = m.definitions@[m.order@[k]@];
        lemma_milestones_at(m.order@, m.definitions@, k);
        lemma_milestone_entries(d);
        lemma_milestone_at(d);
        lemma_entry(milestone_entries(d));
    }
}

proof fn lemma_cycle_keys()
    ensures
        "id"@ != "name"@,
        "id"@ != "start_date"@,
        "id"@ != "end_date"@,
        "id"@ != "archived"@,
        "name"@ != "start_date"@,
        "name"@ != "end_date"@,
        "name"@ != "archived"@,
        "start_date"@ != "end_date"@,
        "start_date"@ != "archived"@,
        "end_date"@ != "archived"@,
{
    reveal_strlit("id");
    reveal_strlit("name");
    reveal_strlit("start_date");
    reveal_strlit("end_date");
    reveal_strlit("archived");
    assert("id"@.len() == 2);
    assert("name"@.len() == 4);
    assert("start_date"@.len() == 10);
    assert("end_date"@.len() == 8);
    assert("archived"@.len() == 8);
    assert("end_date"@[0] == 'e');
    assert("archived"@[0] == 'a');
}

/// The entries, one after the other.
spec fn cycle_entries(c: ExportCycle) -> Map<Seq<char>, YTree> {
    let m = put(Map::empty(), "id"@, Some(ydoc::ystr(c.id@)));
    let m = put(m, "name"@, Some(ydoc::ystr(c.name@)));
    let m = put(m, "start_date"@, Some(ydoc::ystr(c.start_date@)));
    let m = put(m, "end_date"@, Some(ydoc::ystr(c.end_date@)));
    put(m, "archived"@, flag_entry(c.archived))
}

proof fn lemma_cycle_entries(c: ExportCycle)
    ensures
        space_config::cycle_tree(c) == YTree::Dict(cycle_entries(c)),
{
    lemma_sets();
}

proof fn lemma_cycle_at(c: ExportCycle)
    ensures
        at(cycle_entries(c), "id"@) == Some(ydoc::ystr(c.id@)),
        at(cycle_entries(c), "name"@) == Some(ydoc::ystr(c.name@)),
        at(cycle_entries(c), "start_date"@) == Some(ydoc::ystr(c.start_date@)),
        at(cycle_entries(c), "end_date"@) == Some(ydoc::ystr(c.end_date@)),
        at(cycle_entries(c), "archived"@) == flag_entry(c.archived),
{
    lemma_at();
    lemma_cycle_keys();
}

/// Whether no later cycle has the same id.
pub open spec fn is_last_cycle(v: Seq<ExportCycle>, k: int) -> bool {
    &&& 0 <= k < v.len()
    &&& forall|j: int| k < j < v.len() ==> (#[trigger] v[j]).id@ != v[k].id@
}

proof fn lemma_cycles_at(v: Seq<ExportCycle>, k: int)
    requires
        is_last_cycle(v, k),
    ensures
        space_config::cycle_trees(v).contains_key(v[k].id@),
        space_config::cycle_trees(v)[v[k].id@] == space_config::cycle_tree(v[k]),
    decreases v.len(),
{
    if k < v.len() - 1 {
        let before = v.drop_last();
        assert forall|j: int| k < j < before.len() implies (#[trigger] before[j]).id@
            != before[k].id@ by {
            assert(before[j] == v[j]);
        }
        lemma_cycles_at(before, k);
        assert(v[v.len() - 1] == v.last());
    }
}

/// The cycles as they stand in a configuration: each under its own id, from its start to
/// its end; nothing where there are none.
pub open spec fn cycles_kept(c: YTree, v: Seq<ExportCycle>) -> bool {
    if v.len() == 0 {
        entry(c, "cycles"@) is None
    } else {
        match entry(c, "cycles"@) {
            Some(all) => forall|k: int| #[trigger]
                is_last_cycle(v, k) ==> match entry(all, v[k].id@) {
                    Some(t) => {
                        &&& has_text(t, "id"@, v[k].id@)
                        &&& has_text(t, "name"@, v[k].name@)
                        &&& has_text(t, "start_date"@, v[k].start_date@)
                        &&& has_text(t, "end_date"@, v[k].end_date@)
                        &&& has_flag(t, "archived"@, v[k].archived)
                    },
                    None => false,
                },
            None => false,
        }
    }
}

/// The cycles as an entry, if there are any.
spec fn all_cycles_entry(v: Seq<ExportCycle>) -> Option<YTree> {
    if v.len() == 0 {
        None
    } else {
        Some(YTree::Dict(space_config::cycle_trees(v)))
    }
}

proof fn lemma_cycles_kept(c: YTree, v: Seq<ExportCycle>)
    requires
        entry(c, "cycles"@) == all_cycles_entry(v),
    ensures
        cycles_kept(c, v),
{
    if v.len() > 0 {
        let all = entry(c, "cycles"@)->0;
        assert forall|k: int| #[trigger] is_last_cycle(v, k) implies match entry(all, v[k].id@) {
            Some(t) => {
                &&& has_text(t, "id"@, v[k].id@)
                &&& has_text(t, "name"@, v[k].name@)
                &&& has_text(t, "start_date"@, v[k].start_date@)
                &&& has_text(t, "end_date"@, v[k].end_date@)
                &&& has_flag(t, "archived"@, v[k].archived)
            },
            None => false,
        } by {
            lemma_cycles_at(v, k);
            lemma_cycle_entries(v[k]);
            lemma_cycle_at(v[k]);
            lemma_entry(cycle_entries(v[k]));
        }
    }
}

proof fn lemma_cached_user_keys()
    ensures
        "name"@ != "avatar_url"@,
        "name"@ != "cached_at"@,
        "name"@ != "removed_at"@,
        "avatar_url"@ != "cached_at"@,
        "avatar_url"@ != "removed_at"@,
        "cached_at"@ != "removed_at"@,
{
    reveal_strlit("name");
    reveal_strlit("avatar_url");
    reveal_strlit("cached_at");
    reveal_strlit("removed_at");
    assert("name"@.len() == 4);
    assert("avatar_url"@.len() == 10);
    assert("cached_at"@.len() == 9);
    assert("removed_at"@.len() == 10);
    assert("avatar_url"@[0] == 'a');
    assert("removed_at"@[0] == 'r');
}

/// The entries, one after the other.
spec fn cached_user_entries(u: ExportUser, now: Seq<char>) -> Map<Seq<char>, YTree> {
    let m = put(Map::empty(), "name"@, Some(ydoc::ystr(u.display_name@)));
    let m = put(m, "avatar_url"@, Some(ydoc::ystr(""@)));
    let m = put(m, "cached_at"@, Some(ydoc::ystr(now)));
    put(m, "removed_at"@, Some(ydoc::ystr(""@)))
}

proof fn lemma_cached_user_entries(u: ExportUser, now: Seq<char>)
    ensures
        space_config::cached_user(u, now) == YTree::Dict(cached_user_entries(u, now)),
{
    lemma_sets();
}

proof fn lemma_cached_user_at(u: ExportUser, now: Seq<char>)
    ensures
        at(cached_user_entries(u, now), "name"@) == Some(ydoc::ystr(u.display_name@)),
        at(cached_user_entries(u, now), "avatar_url"@) == Some(ydoc::ystr(""@)),
        at(cached_user_entries(u, now), "cached_at"@) == Some(ydoc::ystr(now)),
        at(cached_user_entries(u, now), "removed_at"@) == Some(ydoc::ystr(""@)),
{
    lemma_at();
    lemma_cached_user_keys();
}

proof fn lemma_cached_team_keys()
    ensures
        "name"@ != "member_count"@,
        "name"@ != "cached_at"@,
        "name"@ != "removed_at"@,
        "member_count"@ != "cached_at"@,
        "member_count"@ != "removed_at"@,
        "cached_at"@ != "removed_at"@,
{
    reveal_strlit("name");
    reveal_strlit("member_count");
    reveal_strlit("cached_at");
    reveal_strlit("removed_at");
    assert("name"@.len() == 4);
    assert("member_count"@.len() == 12);
    assert("cached_at"@.len() == 9);
    assert("removed_at"@.len() == 10);
}

/// The entries, one after the other.
spec fn cached_team_entries(t: ExportTeam, now: Seq<char>) -> Map<Seq<char>, YTree> {
    let m = put(Map::empty(), "name"@, Some(ydoc::ystr(t.name@)));
    let m = put(m, "member_count"@, Some(ydoc::ynumber(0)));
    let m = put(m, "cached_at"@, Some(ydoc::ystr(now)));
    put(m, "removed_at"@, Some(ydoc::ystr(""@)))
}

proof fn lemma_cached_team_entries(t: ExportTeam, now: Seq<char>)
    ensures
        space_config::cached_team(t, now) == YTree::Dict(cached_team_entries(t, now)),
{
    lemma_sets();
}

proof fn lemma_cached_team_at(t: ExportTeam, now: Seq<char>)
    ensures
        at(cached_team_entries(t, now), "name"@) == Some(ydoc::ystr(t.name@)),
        at(cached_team_entries(t, now), "member_count"@) == Some(ydoc::ynumber(0)),
        at(cached_team_entries(t, now), "cached_at"@) == Some(ydoc::ystr(now)),
        at(cached_team_entries(t, now), "removed_at"@) == Some(ydoc::ystr(""@)),
{
    lemma_at();
    lemma_cached_team_keys();
}

/// Whether the user is mapped, and no later one to the same user.
pub open spec fn is_last_user(v: Seq<ExportUser>, map: Map<Seq<char>, String>, k: int) -> bool {
    &&& 0 <= k < v.len()
    &&& map.contains_key(v[k].id@)
    &&& forall|j: int|
        k < j < v.len() && map.contains_key(v[j].id@) ==> map[(#[trigger] v[j]).id@]@
            != map[v[k].id@]@
}

proof fn lemma_users_at(v: Seq<ExportUser>, map: Map<Seq<char>, String>, now: Seq<char>, k: int)
    requires
        is_last_user(v, map, k),
    ensures
        space_config::cached_users(v, map, now).contains_key(map[v[k].id@]@),
        space_config::cached_users(v, map, now)[map[v[k].id@]@] == space_config::cached_user(v[k], now),
    decreases v.len(),
{
    if k < v.len() - 1 {
        let before = v.drop_last();
        assert forall|j: int| k < j < before.len() && map.contains_key(before[j].id@) implies map[(
        #[trigger] before[j]).id@]@ != map[before[k].id@]@ by {
            assert(before[j] == v[j]);
        }
        lemma_users_at(before, map, now, k);
        assert(v[v.len() - 1] == v.last());
    }
}

/// Whether the team is mapped, and no later one to the same team.
pub open spec fn is_last_team(v: Seq<ExportTeam>, map: Map<Seq<char>, String>, k: int) -> bool {
    &&& 0 <= k < v.len()
    &&& map.contains_key(v[k].id@)
    &&& forall|j: int|
        k < j < v.len() && map.contains_key(v[j].id@) ==> map[(#[trigger] v[j]).id@]@
            != map[v[k].id@]@
}

proof fn lemma_teams_at(v: Seq<ExportTeam>, map: Map<Seq<char>, String>, now: Seq<char>, k: int)
    requires
        is_last_team(v, map, k),
    ensures
        space_config::cached_teams(v, map, now).contains_key(map[v[k].id@]@),
        space_config::cached_teams(v, map, now)[map[v[k].id@]@] == space_config::cached_team(v[k], now),
    decreases v.len(),
{
    if k < v.len() - 1 {
        let before = v.drop_last();
        assert forall|j: int| k < j < before.len() && map.contains_key(before[j].id@) implies map[(
        #[trigger] before[j]).id@]@ != map[before[k].id@]@ by {
            assert(before[j] == v[j]);
        }
        lemma_teams_at(before, map, now, k);
        assert(v[v.len() - 1] == v.last());
    }
}

/// The names by which users and teams are shown, as they stand in a configuration: each
/// user and team that is mapped, under the new id and with the name in the export.
pub open spec fn names_read_back(c: YTree, e: SpaceExport, maps: ImportMaps, now: Seq<char>) -> bool {
    match entry(c, "assignee_cache"@) {
        Some(cache) => {
            &&& (match entry(cache, "users"@) {
                Some(users) => forall|k: int| #[trigger]
                    is_last_user(e.users@, maps.user_map@, k) ==> match entry(
                        users,
                        maps.user_map@[e.users@[k].id@]@,
                    ) {
                        Some(t) => has_text(t, "name"@, e.users@[k].display_name@) && has_text(
                            t,
                            "avatar_url"@,
                            ""@,
                        ) && has_text(t, "cached_at"@, now) && has_text(t, "removed_at"@, ""@),
                        None => false,
                    },
                None => false,
            })
            &&& (match entry(cache, "teams"@) {
                Some(teams) => forall|k: int| #[trigger]
                    is_last_team(e.teams@, maps.team_map@, k) ==> match entry(
                        teams,
                        maps.team_map@[e.teams@[k].id@]@,
                    ) {
                        Some(t) => has_text(t, "name"@, e.teams@[k].name@) && has_number(
                            t,
                            "member_count"@,
                            0,
                        ) && has_text(t, "cached_at"@, now) && has_text(t, "removed_at"@, ""@),
                        None => false,
                    },
                None => false,
            })
        },
        None => false,
    }
}

proof fn lemma_names_read_back(c: YTree, e: SpaceExport, maps: ImportMaps, now: Seq<char>)
    requires
        entry(c, "assignee_cache"@) == Some(
            space_config::assignee_cache(e, maps.user_map@, maps.team_map@, now),
        ),
    ensures
        names_read_back(c, e, maps, now),
{
    lemma_people_keys();
    let cache = entry(c, "assignee_cache"@)->0;
    let users = YTree::Dict(space_config::cached_users(e.users@, maps.user_map@, now));
    let teams = YTree::Dict(space_config::cached_teams(e.teams@, maps.team_map@, now));
    assert(entry(cache, "users"@) == Some(users));
    assert(entry(cache, "teams"@) == Some(teams));
    assert forall|k: int| #[trigger]
        is_last_user(e.users@, maps.user_map@, k) implies match entry(
        users,
        maps.user_map@[e.users@[k].id@]@,
    ) {
        Some(t) => has_text(t, "name"@, e.users@[k].display_name@) && has_text(
            t,
            "avatar_url"@,
            ""@,
        ) && has_text(t, "cached_at"@, now) && has_text(t, "removed_at"@, ""@),
        None => false,
    } by {
        lemma_users_at(e.users@, maps.user_map@, now, k);
        lemma_cached_user_entries(e.users@[k], now);
        lemma_cached_user_at(e.users@[k], now);
        lemma_entry(cached_user_entries(e.users@[k], now));
    }
    assert forall|k: int| #[trigger]
        is_last_team(e.teams@, maps.team_map@, k) implies match entry(
        teams,
        maps.team_map@[e.teams@[k].id@]@,
    ) {
        Some(t) => has_text(t, "name"@, e.teams@[k].name@) && has_number(t, "member_count"@, 0)
            && has_text(t, "cached_at"@, now) && has_text(t, "removed_at"@, ""@),
        None => false,
    } by {
        lemma_teams_at(e.teams@, maps.team_map@, now, k);
        lemma_cached_team_entries(e.teams@[k], now);
        lemma_cached_team_at(e.teams@[k], now);
        lemma_entry(cached_team_entries(e.teams@[k], now));
    }
}

proof fn lemma_space_sets()
    ensures
        forall|m: Map<Seq<char>, YTree>, x: ExportMilestones| #[trigger]
            space_config::with_milestones(m, x) == put(
                put(
                    m,
                    "milestones"@,
                    Some(YTree::Dict(space_config::milestone_trees(x.order@, x.definitions@))),
                ),
                "milestones_order"@,
                Some(YTree::List(space_config::milestone_ids(x.order@, x.definitions@))),
            ),
        forall|m: Map<Seq<char>, YTree>, v: Seq<ExportCycle>| #[trigger]
            space_config::with_cycles(m, v) == put(m, "cycles"@, all_cycles_entry(v)),
{
    reveal(put);
}

proof fn lemma_config_keys()
    ensures
        "labels"@ != "labels_order"@,
        "labels"@ != "primary_label_id"@,
        "labels"@ != "milestones"@,
        "labels"@ != "milestones_order"@,
        "labels"@ != "shared_views"@,
        "labels"@ != "shared_views_order"@,
        "labels"@ != "cycle_config"@,
        "labels"@ != "cycles"@,
        "labels"@ != "short_id_prefix"@,
        "labels"@ != "short_id_visible"@,
        "labels"@ != "archive_config"@,
        "labels"@ != "assignee_cache"@,
        "labels_order"@ != "primary_label_id"@,
        "labels_order"@ != "milestones"@,
        "labels_order"@ != "milestones_order"@,
        "labels_order"@ != "shared_views"@,
        "labels_order"@ != "shared_views_order"@,
        "labels_order"@ != "cycle_config"@,
        "labels_order"@ != "cycles"@,
        "labels_order"@ != "short_id_prefix"@,
        "labels_order"@ != "short_id_visible"@,
        "labels_order"@ != "archive_config"@,
        "labels_order"@ != "assignee_cache"@,
        "primary_label_id"@ != "milestones"@,
        "primary_label_id"@ != "milestones_order"@,
        "primary_label_id"@ != "shared_views"@,
        "primary_label_id"@ != "shared_views_order"@,
        "primary_label_id"@ != "cycle_config"@,
        "primary_label_id"@ != "cycles"@,
        "primary_label_id"@ != "short_id_prefix"@,
        "primary_label_id"@ != "short_id_visible"@,
        "primary_label_id"@ != "archive_config"@,
        "primary_label_id"@ != "assignee_cache"@,
        "milestones"@ != "milestones_order"@,
        "milestones"@ != "shared_views"@,
        "milestones"@ != "shared_views_order"@,
        "milestones"@ != "cycle_config"@,
        "milestones"@ != "cycles"@,
        "milestones"@ != "short_id_prefix"@,
        "milestones"@ != "short_id_visible"@,
        "milestones"@ != "archive_config"@,
        "milestones"@ != "assignee_cache"@,
        "milestones_order"@ != "shared_views"@,
        "milestones_order"@ != "shared_views_order"@,
        "milestones_order"@ != "cycle_config"@,
        "milestones_order"@ != "cycles"@,
        "milestones_order"@ != "short_id_prefix"@,
        "milestones_order"@ != "short_id_visible"@,
        "milestones_order"@ != "archive_config"@,
        "milestones_order"@ != "assignee_cache"@,
        "shared_views"@ != "shared_views_order"@,
        "shared_views"@ != "cycle_config"@,
        "shared_views"@ != "cycles"@,
        "shared_views"@ != "short_id_prefix"@,
        "shared_views"@ != "short_id_visible"@,
        "shared_views"@ != "archive_config"@,
        "shared_views"@ != "assignee_cache"@,
        "shared_views_order"@ != "cycle_config"@,
        "shared_views_order"@ != "cycles"@,
        "shared_views_order"@ != "short_id_prefix"@,
        "shared_views_order"@ != "short_id_visible"@,
        "shared_views_order"@ != "archive_config"@,
        "shared_views_order"@ != "assignee_cache"@,
        "cycle_config"@ != "cycles"@,
        "cycle_config"@ != "short_id_prefix"@,
        "cycle_config"@ != "short_id_visible"@,
        "cycle_config"@ != "archive_config"@,
        "cycle_config"@ != "assignee_cache"@,
        "cycles"@ != "short_id_prefix"@,
        "cycles"@ != "short_id_visible"@,
        "cycles"@ != "archive_config"@,
        "cycles"@ != "assignee_cache"@,
        "short_id_prefix"@ != "short_id_visible"@,
        "short_id_prefix"@ != "archive_config"@,
        "short_id_prefix"@ != "assignee_cache"@,
        "short_id_visible"@ != "archive_config"@,
        "short_id_visible"@ != "assignee_cache"@,
        "archive_config"@ != "assignee_cache"@,
{
    reveal_strlit("labels");
    reveal_strlit("labels_order");
    reveal_strlit("primary_label_id");
    reveal_strlit("milestones");
    reveal_strlit("milestones_order");
    reveal_strlit("shared_views");
    reveal_strlit("shared_views_order");
    reveal_strlit("cycle_config");
    reveal_strlit("cycles");
    reveal_strlit("short_id_prefix");
    reveal_strlit("short_id_visible");
    reveal_strlit("archive_config");
    reveal_strlit("assignee_cache");
    assert("labels"@.len() == 6);
    assert("labels_order"@.len() == 12);
    assert("primary_label_id"@.len() == 16);
    assert("milestones"@.len() == 10);
    assert("milestones_order"@.len() == 16);
    assert("shared_views"@.len() == 12);
    assert("shared_views_order"@.len() == 18);
    assert("cycle_config"@.len() == 12);
    assert("cycles"@.len() == 6);
    assert("short_id_prefix"@.len() == 15);
    assert("short_id_visible"@.len() == 16);
    assert("archive_config"@.len() == 14);
    assert("assignee_cache"@.len() == 14);
    assert("labels"@[0] == 'l');
    assert("cycles"@[0] == 'c');
    assert("labels_order"@[0] == 'l');
    assert("shared_views"@[0] == 's');
    assert("cycle_config"@[0] == 'c');
    assert("primary_label_id"@[0] == 'p');
    assert("milestones_order"@[0] == 'm');
    assert("short_id_visible"@[0] == 's');
    assert("archive_config"@[1] == 'r');
    assert("assignee_cache"@[1] == 's');
}

/// The entries, one after the other.
spec fn config_entries(e: SpaceExport, users: &StrMap<String>, teams: &StrMap<String>, now: Seq<char>) -> Map<Seq<char>, YTree> {
    let m = put(Map::empty(), "labels"@, Some(YTree::Dict(config::label_trees(e.labels.order@, e.labels.definitions@, Some(users@)))));
    let m = put(m, "labels_order"@, Some(YTree::List(config::label_ids(e.labels.order@, e.labels.definitions@))));
    let m = put(m, "primary_label_id"@, str_entry(text::opt_text(e.labels.primary_label_id)));
    let m = put(m, "milestones"@, Some(YTree::Dict(space_config::milestone_trees(e.milestones.order@, e.milestones.definitions@))));
    let m = put(m, "milestones_order"@, Some(YTree::List(space_config::milestone_ids(e.milestones.order@, e.milestones.definitions@))));
    let m = put(m, "shared_views"@, Some(YTree::Dict(config::view_trees(e.views.order@, e.views.definitions@, FilterPolicy::Remap { users, teams }))));
    let m = put(m, "shared_views_order"@, Some(YTree::List(config::view_ids(e.views.order@, e.views.definitions@))));
    let m = put(m, "cycle_config"@, cycles_entry(e.cycle_config, space_config::next_cycle(e.cycles@)));
    let m = put(m, "cycles"@, all_cycles_entry(e.cycles@));
    let m = put(m, "short_id_prefix"@, str_entry(text::opt_text(e.space.short_id_prefix)));
    let m = put(m, "short_id_visible"@, Some(ydoc::ybool(e.space.short_id_visible)));
    let m = put(m, "archive_config"@, archive_entry(instantiator::archive_days(e.archive_config)));
    put(m, "assignee_cache"@, Some(space_config::assignee_cache(e, users@, teams@, now)))
}

proof fn lemma_config_entries(e: SpaceExport, users: &StrMap<String>, teams: &StrMap<String>, now: Seq<char>)
    ensures
        YTree::Dict(space_config::config_tree(e, users, teams, now)) == YTree::Dict(config_entries(e, users, teams, now)),
{
    lemma_sets();
    lemma_config_sets();
    lemma_space_sets();
}

proof fn lemma_config_at(e: SpaceExport, users: &StrMap<String>, teams: &StrMap<String>, now: Seq<char>)
    ensures
        at(config_entries(e, users, teams, now), "labels"@) == Some(YTree::Dict(config::label_trees(e.labels.order@, e.labels.definitions@, Some(users@)))),
        at(config_entries(e, users, teams, now), "labels_order"@) == Some(YTree::List(config::label_ids(e.labels.order@, e.labels.definitions@))),
        at(config_entries(e, users, teams, now), "primary_label_id"@) == str_entry(text::opt_text(e.labels.primary_label_id)),
        at(config_entries(e, users, teams, now), "milestones"@) == Some(YTree::Dict(space_config::milestone_trees(e.milestones.order@, e.milestones.definitions@))),
        at(config_entries(e, users, teams, now), "milestones_order"@) == Some(YTree::List(space_config::milestone_ids(e.milestones.order@, e.milestones.definitions@))),
        at(config_entries(e, users, teams, now), "shared_views"@) == Some(YTree::Dict(config::view_trees(e.views.order@, e.views.definitions@, FilterPolicy::Remap { users, teams }))),
        at(config_entries(e, users, teams, now), "shared_views_order"@) == Some(YTree::List(config::view_ids(e.views.order@, e.views.definitions@))),
        at(config_entries(e, users, teams, now), "cycle_config"@) == cycles_entry(e.cycle_config, space_config::next_cycle(e.cycles@)),
        at(config_entries(e, users, teams, now), "cycles"@) == all_cycles_entry(e.cycles@),
        at(config_entries(e, users, teams, now), "short_id_prefix"@) == str_entry(text::opt_text(e.space.short_id_prefix)),
        at(config_entries(e, users, teams, now), "short_id_visible"@) == Some(ydoc::ybool(e.space.short_id_visible)),
        at(config_entries(e, users, teams, now), "archive_config"@) == archive_entry(instantiator::archive_days(e.archive_config)),
        at(config_entries(e, users, teams, now), "assignee_cache"@) == Some(space_config::assignee_cache(e, users@, teams@, now)),
{
    lemma_at();
    lemma_config_keys();
}

/// The configuration of an imported space holds the labels, the milestones, the cycles and
/// the views of the export, with users and teams as they are mapped, its configuration of
/// cycles with the number of the next one, its archive configuration and how its short ids
/// are shown.
pub proof fn lemma_config_read_back(
    e: SpaceExport,
    new_space: Seq<char>,
    importer: Seq<char>,
    maps: ImportMaps,
    r: ImportBuildResult,
    now: Seq<char>,
    now_ms: int,
    doc_ids: Map<Seq<char>, String>,
    pairs: Seq<(String, String)>,
    shown: Map<Seq<char>, Vec<XmlIn>>,
)
    requires
        space::import_with(e, new_space, importer, maps, r, now, now_ms, doc_ids, pairs, shown),
    ensures
        ({
            let c = YTree::Dict(ydoc::dict_under(ydoc::doc_roots(r.space_doc), "config"@));
            &&& labels_read_back(c, e.labels, Some(maps.user_map@))
            &&& milestones_read_back(c, e.milestones)
            &&& cycles_kept(c, e.cycles@)
            &&& cycles_read_back(
                c,
                e.cycle_config,
                if e.cycles@.len() == 0 {
                    1
                } else {
                    space_config::next_number_of(e.cycles@)
                },
            )
            &&& views_read_back(
                c,
                e.views,
                FilterPolicy::Remap { users: &maps.user_map, teams: &maps.team_map },
            )
            &&& has_opt(c, "short_id_prefix"@, e.space.short_id_prefix)
            &&& has_bool(c, "short_id_visible"@, e.space.short_id_visible)
            &&& (match e.archive_config {
                Some(x) => match entry(c, "archive_config"@) {
                    Some(t) => has_number(t, "migration_days"@, x.migration_days as int),
                    None => false,
                },
                None => entry(c, "archive_config"@) is None,
            })
            &&& names_read_back(c, e, maps, now)
        }),
        ydoc::fragment_under(ydoc::doc_roots(r.space_doc), "description"@) == (
        match e.overview_yjs {
            Some(b) => Some(blob::blob_nodes(b@, shown)),
            None => None,
        }),
{
    let users = &maps.user_map;
    let teams = &maps.team_map;
    let c = YTree::Dict(space_config::config_tree(e, users, teams, now));
    lemma_config_entries(e, users, teams, now);
    lemma_config_at(e, users, teams, now);
    lemma_entry(config_entries(e, users, teams, now));
    lemma_labels_read_back(c, e.labels, Some(users@));
    lemma_milestones_read_back(c, e.milestones);
    lemma_cycles_kept(c, e.cycles@);
    lemma_cycles_read_back(c, e.cycle_config, space_config::next_cycle(e.cycles@));
    lemma_views_read_back(c, e.views, FilterPolicy::Remap { users, teams });
    lemma_names_read_back(c, e, maps, now);
}

// ---------------------------------------------------------------------------
// The documents and what is listed of them
// ---------------------------------------------------------------------------

proof fn lemma_loaded(
    v: Seq<ExportDocument>,
    ids: Map<Seq<char>, String>,
    pairs: Seq<(String, String)>,
    out: Seq<(String, Doc)>,
    k: int,
    u: Seq<u8>,
) -> (n: int)
    requires
        documents::documents_loaded(v, ids, pairs, out),
        0 <= k < v.len(),
        ids.contains_key(v[k].id@),
        documents::document_update(text::opt_text(v[k].content_yjs), pairs) == Some(u),
    ensures
        0 <= n < out.len(),
        out[n].0@ == ids[v[k].id@]@,
        instantiator::holds_update(out[n].1, u),
    decreases v.len(),
{
    let w = v.drop_last();
    if k == v.len() - 1 {
        out.len() - 1
    } else {
        assert(w[k] == v[k]);
        let d = v.last();
        let more = documents::document_update(text::opt_text(d.content_yjs), pairs) is Some
            && ids.contains_key(d.id@);
        if more {
            lemma_loaded(w, ids, pairs, out.drop_last(), k, u)
        } else {
            lemma_loaded(w, ids, pairs, out, k, u)
        }
    }
}

proof fn lemma_manifest(v: Seq<ExportDocument>, ids: Map<Seq<char>, String>)
    requires
        forall|i: int| 0 <= i < v.len() ==> ids.contains_key((#[trigger] v[i]).id@),
    ensures
        documents::manifest_of(v, ids).len() == v.len(),
        forall|i: int|
            0 <= i < v.len() ==> #[trigger] documents::manifest_of(v, ids)[i] == (
                ids[v[i].id@]@,
                v[i].title@,
            ),
    decreases v.len(),
{
    if v.len() > 0 {
        let w = v.drop_last();
        assert forall|i: int| 0 <= i < w.len() implies ids.contains_key((#[trigger] w[i]).id@) by {
            assert(w[i] == v[i]);
        }
        lemma_manifest(w, ids);
        assert(ids.contains_key(v[v.len() - 1].id@));
    }
}

/// A document whose content is an update, in which no id has to be replaced, is loaded with
/// that content under its new id.
pub proof fn lemma_document_loaded(
    e: SpaceExport,
    new_space: Seq<char>,
    importer: Seq<char>,
    maps: ImportMaps,
    r: ImportBuildResult,
    now: Seq<char>,
    now_ms: int,
    doc_ids: Map<Seq<char>, String>,
    pairs: Seq<(String, String)>,
    shown: Map<Seq<char>, Vec<XmlIn>>,
    k: int,
    b: Seq<u8>,
)
    requires
        space::import_with(e, new_space, importer, maps, r, now, now_ms, doc_ids, pairs, shown),
        0 <= k < e.documents@.len(),
        e.documents@[k].content_yjs is Some,
        e.documents@[k].content_yjs->0@.len() > 0,
        codec::base64_bytes(e.documents@[k].content_yjs->0@) == Some(b),
        crate::update_scan::sound_update(b),
        ydoc::is_update(b),
        forall|i: int|
            0 <= i < pairs.len() ==> !blob::occurs_in(b, blob::utf8((#[trigger] pairs[i]).0@)),
    ensures
        exists|n: int|
            0 <= n < r.document_docs@.len() && (#[trigger] r.document_docs@[n]).0@
                == doc_ids[e.documents@[k].id@]@ && instantiator::holds_update(
                r.document_docs@[n].1,
                b,
            ),
{
    blob::lemma_remap_untouched(b, pairs);
    assert(doc_ids.contains_key(e.documents@[k].id@));
    let n = lemma_loaded(e.documents@, doc_ids, pairs, r.document_docs@, k, b);
}

/// The manifest lists the documents in order, each with its new id and its title.
pub proof fn lemma_manifest_kept(
    e: SpaceExport,
    new_space: Seq<char>,
    importer: Seq<char>,
    maps: ImportMaps,
    r: ImportBuildResult,
    now: Seq<char>,
    now_ms: int,
    doc_ids: Map<Seq<char>, String>,
    pairs: Seq<(String, String)>,
    shown: Map<Seq<char>, Vec<XmlIn>>,
)
    requires
        space::import_with(e, new_space, importer, maps, r, now, now_ms, doc_ids, pairs, shown),
    ensures
        r.document_manifest@.len() == e.documents@.len(),
        forall|i: int|
            0 <= i < e.documents@.len() ==> (#[trigger] r.document_manifest@[i]).new_id@
                == doc_ids[e.documents@[i].id@]@ && r.document_manifest@[i].title@
                == e.documents@[i].title@,
{
    let v = e.documents@;
    assert forall|i: int| 0 <= i < v.len() implies doc_ids.contains_key((#[trigger] v[i]).id@) by {}
    lemma_manifest(v, doc_ids);
    let view = instantiator::manifest_view(r.document_manifest@);
    assert(view.len() == v.len());
    assert forall|i: int| 0 <= i < v.len() implies (#[trigger] r.document_manifest@[i]).new_id@
        == doc_ids[v[i].id@]@ && r.document_manifest@[i].title@ == v[i].title@ by {
        assert(view[i] == (r.document_manifest@[i].new_id@, r.document_manifest@[i].title@));
    }
}

/// In the blobs of an imported space the id of the space gives way to the new one, that of
/// a user to whom they are mapped, and those of attachments and documents to their new
/// ids; no other id is replaced. Where an id is one of several, a user comes first, then
/// the space, an attachment and a document.
pub proof fn lemma_ids_replaced(
    e: SpaceExport,
    new_space: Seq<char>,
    importer: Seq<char>,
    maps: ImportMaps,
    r: ImportBuildResult,
    now: Seq<char>,
    now_ms: int,
    doc_ids: Map<Seq<char>, String>,
    pairs: Seq<(String, String)>,
    shown: Map<Seq<char>, Vec<XmlIn>>,
    id: Seq<char>,
)
    requires
        space::import_with(e, new_space, importer, maps, r, now, now_ms, doc_ids, pairs, shown),
        codec::is_hyphenated(id),
    ensures
        ({
            let map = crate::str_map::map_of(pairs);
            let users = maps.user_map@;
            let is_user = users.contains_key(id) && users[id]@ != id;
            let is_space = id == e.space.id@ && id != new_space;
            let is_file = exists|i: int|
                0 <= i < e.attachments@.len() && (#[trigger] e.attachments@[i]).id@ == id;
            let is_doc = exists|i: int|
                0 <= i < e.documents@.len() && (#[trigger] e.documents@[i]).id@ == id;
            &&& is_user ==> map.contains_key(id) && map[id]@ == users[id]@
            &&& !is_user && is_space ==> map.contains_key(id) && map[id]@ == new_space
            &&& !is_user && !is_space && is_file ==> map.contains_key(id) && map[id]@
                == r.attachment_id_map@[id]@
            &&& !is_user && !is_space && !is_file && is_doc ==> map.contains_key(id) && map[id]@
                == doc_ids[id]@
            &&& !is_user && !is_space && !is_file && !is_doc ==> !map.contains_key(id)
        }),
{
    let map = crate::str_map::map_of(pairs);
    let new = space::new_uuid(
        id,
        e.space.id@,
        new_space,
        doc_ids,
        r.attachment_id_map@,
        maps.user_map@,
    );
    assert(map.contains_key(id) <==> new is Some);
    assert(doc_ids.contains_key(id) <==> exists|i: int|
        0 <= i < e.documents@.len() && (#[trigger] e.documents@[i]).id@ == id);
    assert(r.attachment_id_map@.contains_key(id) <==> exists|i: int|
        0 <= i < e.attachments@.len() && (#[trigger] e.attachments@[i]).id@ == id);
}

} // verus!
