//! What an import could not keep, and how it is reported.

use vstd::prelude::*;
use vstd::string::StringExecFns;

use crate::export::types::{ExportComment, ExportDocument, ExportItem, SpaceExport};
use crate::filter_token;
use crate::import::documents;
use crate::import::items;
use crate::str_map::{self, StrMap};
use crate::template::types::{TemplateViewDef, TemplateViews};
use crate::text;

verus! {

/// Tally of what an import could not keep.
#[derive(Debug, PartialEq, Eq)]
pub struct ImportCounters {
    pub dropped_assignees: usize,
    pub dropped_teams: usize,
    /// Comment authors who are not mapped.
    pub unmapped_authors: usize,
    /// Items and documents whose creator is not mapped; the importer is recorded
    /// as creator instead.
    pub fallback_creators: usize,
    pub dropped_doc_owners: usize,
    pub dropped_doc_parents: usize,
    pub dropped_filter_tokens: usize,
}

/// One, if the condition holds.
pub open spec fn one_if(b: bool) -> int {
    if b {
        1
    } else {
        0
    }
}

// ---------------------------------------------------------------------------
// Items
// ---------------------------------------------------------------------------

/// The assignees that are not mapped.
pub open spec fn lost_assignees(v: Seq<ExportItem>, users: Map<Seq<char>, String>) -> int
    decreases v.len(),
{
    if v.len() == 0 {
        0
    } else {
        lost_assignees(v.drop_last(), users) + items::unmapped_count(
            v.last().assignee_user_ids@,
            users,
        )
    }
}

/// The assigned teams that are not mapped.
pub open spec fn lost_teams(v: Seq<ExportItem>, teams: Map<Seq<char>, String>) -> int
    decreases v.len(),
{
    if v.len() == 0 {
        0
    } else {
        lost_teams(v.drop_last(), teams) + items::unmapped_count(
            v.last().assignee_team_ids@,
            teams,
        )
    }
}

/// The creators of items who are not mapped.
pub open spec fn lost_item_creators(v: Seq<ExportItem>, users: Map<Seq<char>, String>) -> int
    decreases v.len(),
{
    if v.len() == 0 {
        0
    } else {
        lost_item_creators(v.drop_last(), users) + one_if(
            items::creator_lost(v.last().created_by, users),
        )
    }
}

// ---------------------------------------------------------------------------
// Documents
// ---------------------------------------------------------------------------

/// The creators of documents who are not mapped.
pub open spec fn lost_doc_creators(v: Seq<ExportDocument>, users: Map<Seq<char>, String>) -> int
    decreases v.len(),
{
    if v.len() == 0 {
        0
    } else {
        lost_doc_creators(v.drop_last(), users) + one_if(
            items::creator_lost(v.last().created_by, users),
        )
    }
}

/// The owners of documents that are not mapped.
pub open spec fn lost_owners(
    v: Seq<ExportDocument>,
    users: Map<Seq<char>, String>,
    teams: Map<Seq<char>, String>,
) -> int
    decreases v.len(),
{
    if v.len() == 0 {
        0
    } else {
        lost_owners(v.drop_last(), users, teams) + items::unmapped_count(
            v.last().owner_user_ids@,
            users,
        ) + items::unmapped_count(v.last().owner_team_ids@, teams)
    }
}

/// Whether a document names a parent item that is not there.
pub open spec fn parent_item_lost(d: ExportDocument, all: Seq<ExportItem>) -> bool {
    d.parent_item_id matches Some(p) && !documents::has_item(all, p@)
}

/// Whether a document names a parent milestone that is not there.
pub open spec fn parent_milestone_lost(d: ExportDocument, e: SpaceExport) -> bool {
    d.parent_milestone_id matches Some(p) && !e.milestones.definitions@.contains_key(p@)
}

/// The parents of documents that are not there.
pub open spec fn lost_parents(v: Seq<ExportDocument>, e: SpaceExport) -> int
    decreases v.len(),
{
    if v.len() == 0 {
        0
    } else {
        lost_parents(v.drop_last(), e) + one_if(parent_item_lost(v.last(), e.items@)) + one_if(
            parent_milestone_lost(v.last(), e),
        )
    }
}

// ---------------------------------------------------------------------------
// Views and authors
// ---------------------------------------------------------------------------

/// The filters of a view that are dropped.
pub open spec fn lost_in_view(
    v: TemplateViewDef,
    users: Map<Seq<char>, String>,
    teams: Map<Seq<char>, String>,
) -> int {
    match v.filters {
        Some(f) => filter_token::import_dropped(f@, users, teams),
        None => 0,
    }
}

/// The filters of views that are dropped.
pub open spec fn lost_filters(
    v: Seq<(String, TemplateViewDef)>,
    users: Map<Seq<char>, String>,
    teams: Map<Seq<char>, String>,
) -> int
    decreases v.len(),
{
    if v.len() == 0 {
        0
    } else {
        lost_filters(v.drop_last(), users, teams) + lost_in_view(v.last().1, users, teams)
    }
}

/// Whether someone who is not mapped wrote one of the comments.
pub open spec fn wrote_one(v: Seq<ExportComment>, author: Seq<char>) -> bool {
    exists|j: int| 0 <= j < v.len() && (#[trigger] v[j]).author_id@ == author
}

/// The authors of comments who are not mapped.
pub open spec fn lost_authors(v: Seq<ExportItem>, users: Map<Seq<char>, String>) -> Set<Seq<char>> {
    Set::new(
        |a: Seq<char>|
            !users.contains_key(a) && exists|i: int|
                0 <= i < v.len() && wrote_one((#[trigger] v[i]).comments@, a),
    )
}

// ---------------------------------------------------------------------------
// Counting
// ---------------------------------------------------------------------------

/// What the counters of an import say. Each count ends at the largest `usize`.
pub open spec fn counters_are(
    c: ImportCounters,
    e: SpaceExport,
    users: Map<Seq<char>, String>,
    teams: Map<Seq<char>, String>,
) -> bool {
    &&& c.dropped_assignees == filter_token::capped(lost_assignees(e.items@, users))
    &&& c.dropped_teams == filter_token::capped(lost_teams(e.items@, teams))
    &&& c.fallback_creators == filter_token::capped(
        lost_item_creators(e.items@, users) + lost_doc_creators(e.documents@, users),
    )
    &&& c.dropped_doc_owners == filter_token::capped(lost_owners(e.documents@, users, teams))
    &&& c.dropped_doc_parents == filter_token::capped(lost_parents(e.documents@, e))
    &&& c.dropped_filter_tokens == filter_token::capped(
        lost_filters(e.views.definitions.pairs(), users, teams),
    )
    &&& lost_authors(e.items@, users).finite()
    &&& c.unmapped_authors == lost_authors(e.items@, users).len()
}

proof fn lemma_mapped_len(ids: Seq<String>, map: Map<Seq<char>, String>)
    ensures
        items::mapped_ids(ids, map).len() <= ids.len(),
    decreases ids.len(),
{
    if ids.len() > 0 {
        lemma_mapped_len(ids.drop_last(), map);
    }
}

fn count_unmapped(ids: &Vec<String>, map: &StrMap<String>) -> (r: usize)
    ensures
        r == items::unmapped_count(ids@, map@),
{
    proof {
        lemma_mapped_len(ids@, map@);
    }
    let mapped = items::map_ids(ids, map);
    assert(text::texts(mapped@).len() == mapped@.len());
    ids.len() - mapped.len()
}

fn is_creator_lost(created_by: &Option<String>, users: &StrMap<String>) -> (r: bool)
    ensures
        r == items::creator_lost(*created_by, users@),
{
    match created_by {
        Some(c) => !users.contains_key(c.as_str()),
        None => false,
    }
}

proof fn lemma_lost_nonneg(
    e: SpaceExport,
    n: int,
    users: Map<Seq<char>, String>,
    teams: Map<Seq<char>, String>,
)
    requires
        0 <= n <= e.items@.len(),
    ensures
        lost_assignees(e.items@.take(n), users) >= 0,
        lost_teams(e.items@.take(n), teams) >= 0,
        lost_item_creators(e.items@.take(n), users) >= 0,
    decreases n,
{
    if n > 0 {
        assert(e.items@.take(n).drop_last() =~= e.items@.take(n - 1));
        lemma_lost_nonneg(e, n - 1, users, teams);
        lemma_mapped_len(e.items@[n - 1].assignee_user_ids@, users);
        lemma_mapped_len(e.items@[n - 1].assignee_team_ids@, teams);
    }
}

/// Counts what is lost of the items: assignees, teams and creators.
fn count_items(e: &SpaceExport, users: &StrMap<String>, teams: &StrMap<String>) -> (r: (
    usize,
    usize,
    usize,
))
    ensures
        r.0 == filter_token::capped(lost_assignees(e.items@, users@)),
        r.1 == filter_token::capped(lost_teams(e.items@, teams@)),
        r.2 == filter_token::capped(lost_item_creators(e.items@, users@)),
        lost_item_creators(e.items@, users@) >= 0,
{
    let ghost all = e.items@;
    let mut assignees: usize = 0;
    let mut lost: usize = 0;
    let mut creators: usize = 0;
    let mut i: usize = 0;
    assert(all.take(0) =~= seq![]);
    while i < e.items.len()
        invariant
            i <= all.len(),
            all == e.items@,
            assignees == filter_token::capped(lost_assignees(all.take(i as int), users@)),
            lost == filter_token::capped(lost_teams(all.take(i as int), teams@)),
            creators == filter_token::capped(lost_item_creators(all.take(i as int), users@)),
        decreases all.len() - i,
    {
        assert(all.take(i + 1).drop_last() =~= all.take(i as int));
        proof {
            lemma_lost_nonneg(*e, i as int, users@, teams@);
        }
        let item = &e.items[i];
        assignees = assignees.saturating_add(count_unmapped(&item.assignee_user_ids, users));
        lost = lost.saturating_add(count_unmapped(&item.assignee_team_ids, teams));
        if is_creator_lost(&item.created_by, users) {
            creators = creators.saturating_add(1);
        }
        i = i + 1;
    }
    assert(all.take(all.len() as int) =~= all);
    proof {
        lemma_lost_nonneg(*e, all.len() as int, users@, teams@);
    }
    (assignees, lost, creators)
}

proof fn lemma_docs_nonneg(
    e: SpaceExport,
    n: int,
    users: Map<Seq<char>, String>,
    teams: Map<Seq<char>, String>,
)
    requires
        0 <= n <= e.documents@.len(),
    ensures
        lost_doc_creators(e.documents@.take(n), users) >= 0,
        lost_owners(e.documents@.take(n), users, teams) >= 0,
        lost_parents(e.documents@.take(n), e) >= 0,
    decreases n,
{
    if n > 0 {
        assert(e.documents@.take(n).drop_last() =~= e.documents@.take(n - 1));
        lemma_docs_nonneg(e, n - 1, users, teams);
        lemma_mapped_len(e.documents@[n - 1].owner_user_ids@, users);
        lemma_mapped_len(e.documents@[n - 1].owner_team_ids@, teams);
    }
}

/// Counts what is lost of the documents: creators, owners and parents.
fn count_documents(e: &SpaceExport, users: &StrMap<String>, teams: &StrMap<String>) -> (r: (
    usize,
    usize,
    usize,
))
    ensures
        r.0 == filter_token::capped(lost_doc_creators(e.documents@, users@)),
        r.1 == filter_token::capped(lost_owners(e.documents@, users@, teams@)),
        r.2 == filter_token::capped(lost_parents(e.documents@, *e)),
        lost_doc_creators(e.documents@, users@) >= 0,
{
    let ghost all = e.documents@;
    let mut creators: usize = 0;
    let mut owners: usize = 0;
    let mut parents: usize = 0;
    let mut i: usize = 0;
    assert(all.take(0) =~= seq![]);
    while i < e.documents.len()
        invariant
            i <= all.len(),
            all == e.documents@,
            creators == filter_token::capped(lost_doc_creators(all.take(i as int), users@)),
            owners == filter_token::capped(lost_owners(all.take(i as int), users@, teams@)),
            parents == filter_token::capped(lost_parents(all.take(i as int), *e)),
        decreases all.len() - i,
    {
        assert(all.take(i + 1).drop_last() =~= all.take(i as int));
        proof {
            lemma_docs_nonneg(*e, i as int, users@, teams@);
        }
        let d = &e.documents[i];
        owners = owners.saturating_add(count_unmapped(&d.owner_user_ids, users));
        owners = owners.saturating_add(count_unmapped(&d.owner_team_ids, teams));
        if let Some(p) = &d.parent_item_id {
            if !documents::item_exists(&e.items, p.as_str()) {
                parents = parents.saturating_add(1);
            }
        }
        if let Some(p) = &d.parent_milestone_id {
            if !e.milestones.definitions.contains_key(p.as_str()) {
                parents = parents.saturating_add(1);
            }
        }
        if is_creator_lost(&d.created_by, users) {
            creators = creators.saturating_add(1);
        }
        i = i + 1;
    }
    assert(all.take(all.len() as int) =~= all);
    proof {
        lemma_docs_nonneg(*e, all.len() as int, users@, teams@);
    }
    (creators, owners, parents)
}

proof fn lemma_import_len(
    tokens: Seq<Seq<char>>,
    users: Map<Seq<char>, String>,
    teams: Map<Seq<char>, String>,
)
    ensures
        filter_token::import_tokens(tokens, users, teams).len() <= tokens.len(),
    decreases tokens.len(),
{
    if tokens.len() > 0 {
        lemma_import_len(tokens.drop_last(), users, teams);
    }
}

proof fn lemma_filters_nonneg(
    v: Seq<(String, TemplateViewDef)>,
    users: Map<Seq<char>, String>,
    teams: Map<Seq<char>, String>,
)
    ensures
        lost_filters(v, users, teams) >= 0,
    decreases v.len(),
{
    if v.len() > 0 {
        lemma_filters_nonneg(v.drop_last(), users, teams);
        if let Some(f) = v.last().1.filters {
            lemma_import_len(filter_token::tokens_of(f@), users, teams);
        }
    }
}

/// Counts the filter tokens that the remapping of the saved views drops.
fn count_filters(views: &TemplateViews, users: &StrMap<String>, teams: &StrMap<String>) -> (r:
    usize)
    ensures
        r == filter_token::capped(lost_filters(views.definitions.pairs(), users@, teams@)),
{
    let entries = views.definitions.entries();
    let ghost all = entries@;
    let mut dropped: usize = 0;
    let mut i: usize = 0;
    assert(all.take(0) =~= seq![]);
    while i < entries.len()
        invariant
            i <= all.len(),
            all == entries@,
            dropped == filter_token::capped(lost_filters(all.take(i as int), users@, teams@)),
        decreases all.len() - i,
    {
        assert(all.take(i + 1).drop_last() =~= all.take(i as int));
        proof {
            lemma_filters_nonneg(all.take(i as int), users@, teams@);
        }
        if let Some(f) = &entries[i].1.filters {
            proof {
                lemma_import_len(filter_token::tokens_of(f@), users@, teams@);
            }
            let _ = filter_token::remap_filters_for_import(f.as_str(), users, teams, &mut dropped);
        }
        i = i + 1;
    }
    assert(all.take(all.len() as int) =~= all);
    dropped
}

/// Counts the authors of comments who are not mapped, each once.
fn count_authors(v: &Vec<ExportItem>, users: &StrMap<String>) -> (r: usize)
    ensures
        lost_authors(v@, users@).finite(),
        r == lost_authors(v@, users@).len(),
{
    let mut seen: StrMap<bool> = StrMap::new();
    let mut i: usize = 0;
    while i < v.len()
        invariant
            i <= v@.len(),
            forall|a: Seq<char>| #[trigger]
                seen@.contains_key(a) <==> !users@.contains_key(a) && exists|k: int|
                    0 <= k < i && wrote_one((#[trigger] v@[k]).comments@, a),
        decreases v@.len() - i,
    {
        let ghost before = seen@;
        let comments = &v[i].comments;
        let mut j: usize = 0;
        while j < comments.len()
            invariant
                i < v@.len(),
                j <= comments@.len(),
                comments@ == v@[i as int].comments@,
                forall|a: Seq<char>| #[trigger]
                    before.contains_key(a) <==> !users@.contains_key(a) && exists|k: int|
                        0 <= k < i && wrote_one((#[trigger] v@[k]).comments@, a),
                forall|a: Seq<char>| #[trigger]
                    seen@.contains_key(a) <==> before.contains_key(a) || (!users@.contains_key(a)
                        && exists|k: int| 0 <= k < j && (#[trigger] comments@[k]).author_id@ == a),
            decreases comments@.len() - j,
        {
            let ghost was = seen@;
            let author = &comments[j].author_id;
            if !users.contains_key(author.as_str()) {
                seen.insert(author.clone(), true);
            }
            proof {
                assert forall|a: Seq<char>| #[trigger] seen@.contains_key(a)
                    <==> before.contains_key(a) || (!users@.contains_key(a) && exists|k: int|
                    0 <= k < j + 1 && (#[trigger] comments@[k]).author_id@ == a) by {
                    assert(comments@[j as int].author_id@ == author@);
                    if was.contains_key(a) && !before.contains_key(a) {
                        let k = choose|k: int|
                            0 <= k < j && (#[trigger] comments@[k]).author_id@ == a;
                        assert(comments@[k].author_id@ == a);
                    }
                }
            }
            j = j + 1;
        }
        proof {
            assert forall|a: Seq<char>| #[trigger] seen@.contains_key(a) <==> !users@.contains_key(a)
                && exists|k: int| 0 <= k < i + 1 && wrote_one((#[trigger] v@[k]).comments@, a) by {
                if seen@.contains_key(a) {
                    if before.contains_key(a) {
                        let k = choose|k: int|
                            0 <= k < i && wrote_one((#[trigger] v@[k]).comments@, a);
                        assert(wrote_one(v@[k].comments@, a));
                    } else {
                        assert(wrote_one(v@[i as int].comments@, a));
                    }
                }
                if !users@.contains_key(a) && exists|k: int|
                    0 <= k < i + 1 && wrote_one((#[trigger] v@[k]).comments@, a) {
                    let k = choose|k: int|
                        0 <= k < i + 1 && wrote_one((#[trigger] v@[k]).comments@, a);
                    if k == i {
                        assert(wrote_one(comments@, a));
                    } else {
                        assert(before.contains_key(a));
                    }
                }
            }
        }
        i = i + 1;
    }
    let entries = seen.entries();
    proof {
        str_map::lemma_dom_len(entries@);
        assert(lost_authors(v@, users@) =~= seen@.dom());
    }
    seen.len()
}

/// Counts what an import does not keep.
pub fn count_losses(e: &SpaceExport, users: &StrMap<String>, teams: &StrMap<String>) -> (r:
    ImportCounters)
    ensures
        counters_are(r, *e, users@, teams@),
{
    let (dropped_assignees, dropped_teams, item_creators) = count_items(e, users, teams);
    let (doc_creators, dropped_doc_owners, dropped_doc_parents) = count_documents(e, users, teams);
    let dropped_filter_tokens: usize = count_filters(&e.views, users, teams);
    let unmapped_authors: usize = count_authors(&e.items, users);
    let fallback_creators: usize = item_creators.saturating_add(doc_creators);
    ImportCounters {
        dropped_assignees,
        dropped_teams,
        unmapped_authors,
        fallback_creators,
        dropped_doc_owners,
        dropped_doc_parents,
        dropped_filter_tokens,
    }
}

// ---------------------------------------------------------------------------
// Warnings
// ---------------------------------------------------------------------------

/// The warnings with one more, if there is anything to warn of.
pub open spec fn with_warning(v: Seq<Seq<char>>, n: usize, tail: Seq<char>) -> Seq<Seq<char>> {
    if n > 0 {
        v.push(text::decimal(n as nat) + tail)
    } else {
        v
    }
}

/// The warnings for an import report.
pub open spec fn warnings_of(c: ImportCounters) -> Seq<Seq<char>> {
    let w = with_warning(
        seq![],
        c.dropped_assignees,
        " item assignments referenced users with no match in this organization and were dropped"@,
    );
    let w = with_warning(
        w,
        c.dropped_teams,
        " team assignments referenced teams with no match in this organization and were dropped"@,
    );
    let w = with_warning(
        w,
        c.unmapped_authors,
        " comment authors had no match in this organization; their comments keep the exported name without an account"@,
    );
    let w = with_warning(
        w,
        c.fallback_creators,
        " items or documents were created by users with no match in this organization; the importer is recorded as creator"@,
    );
    let w = with_warning(
        w,
        c.dropped_doc_owners,
        " document owners had no match in this organization and were dropped"@,
    );
    let w = with_warning(
        w,
        c.dropped_doc_parents,
        " document parent links referenced items or milestones missing from the export and were dropped"@,
    );
    with_warning(
        w,
        c.dropped_filter_tokens,
        " saved-view filters referenced people or teams with no match in this organization and were removed"@,
    )
}

/// Every kind of loss has one warning, and there is none without a loss.
pub proof fn lemma_warnings(c: ImportCounters)
    ensures
        warnings_of(c).len() == one_if(c.dropped_assignees > 0) + one_if(c.dropped_teams > 0)
            + one_if(c.unmapped_authors > 0) + one_if(c.fallback_creators > 0) + one_if(
            c.dropped_doc_owners > 0,
        ) + one_if(c.dropped_doc_parents > 0) + one_if(c.dropped_filter_tokens > 0),
{
}

fn warn(v: &mut Vec<String>, n: usize, tail: &str)
    ensures
        text::texts(final(v)@) == with_warning(text::texts(old(v)@), n, tail@),
{
    if n > 0 {
        let ghost before = v@;
        let s = text::nat_text(n as u64).concat(tail);
        let ghost sv = s@;
        v.push(s);
        assert(text::texts(v@) =~= text::texts(before).push(sv));
    }
}

/// The warnings for an import report: one for each kind of loss that occurred.
pub fn loss_warnings(c: &ImportCounters) -> (r: Vec<String>)
    ensures
        text::texts(r@) == warnings_of(*c),
{
    let mut v: Vec<String> = Vec::new();
    assert(text::texts(v@) =~= seq![]);
    warn(
        &mut v,
        c.dropped_assignees,
        " item assignments referenced users with no match in this organization and were dropped",
    );
    warn(
        &mut v,
        c.dropped_teams,
        " team assignments referenced teams with no match in this organization and were dropped",
    );
    warn(
        &mut v,
        c.unmapped_authors,
        " comment authors had no match in this organization; their comments keep the exported name without an account",
    );
    warn(
        &mut v,
        c.fallback_creators,
        " items or documents were created by users with no match in this organization; the importer is recorded as creator",
    );
    warn(
        &mut v,
        c.dropped_doc_owners,
        " document owners had no match in this organization and were dropped",
    );
    warn(
        &mut v,
        c.dropped_doc_parents,
        " document parent links referenced items or milestones missing from the export and were dropped",
    );
    warn(
        &mut v,
        c.dropped_filter_tokens,
        " saved-view filters referenced people or teams with no match in this organization and were removed",
    );
    v
}

// ---------------------------------------------------------------------------
// Laws of losses
// ---------------------------------------------------------------------------

proof fn lemma_unmapped(ids: Seq<String>, map: Map<Seq<char>, String>)
    ensures
        items::unmapped_count(ids, map) == ids.filter(|u: String| !map.contains_key(u@)).len(),
    decreases ids.len(),
{
    reveal(Seq::filter);
    if ids.len() > 0 {
        lemma_unmapped(ids.drop_last(), map);
    }
}

/// What an item adds to the losses: each of its assignees and assigned teams that is not
/// mapped, and its creator where they are named and not mapped.
pub proof fn lemma_item_losses(
    v: Seq<ExportItem>,
    i: ExportItem,
    users: Map<Seq<char>, String>,
    teams: Map<Seq<char>, String>,
)
    ensures
        lost_assignees(Seq::empty(), users) == 0,
        lost_teams(Seq::empty(), teams) == 0,
        lost_item_creators(Seq::empty(), users) == 0,
        lost_assignees(v.push(i), users) == lost_assignees(v, users) + i.assignee_user_ids@.filter(
            |u: String| !users.contains_key(u@),
        ).len(),
        lost_teams(v.push(i), teams) == lost_teams(v, teams) + i.assignee_team_ids@.filter(
            |u: String| !teams.contains_key(u@),
        ).len(),
        lost_item_creators(v.push(i), users) == lost_item_creators(v, users) + (
        match i.created_by {
            Some(u) => if users.contains_key(u@) {
                0int
            } else {
                1int
            },
            None => 0int,
        }),
{
    assert(v.push(i).drop_last() =~= v);
    lemma_unmapped(i.assignee_user_ids@, users);
    lemma_unmapped(i.assignee_team_ids@, teams);
}

/// What a document adds to the losses: its owners and its creator as far as they are not
/// mapped, and each of its two parents that is named and not imported.
pub proof fn lemma_document_losses(
    v: Seq<ExportDocument>,
    d: ExportDocument,
    e: SpaceExport,
    users: Map<Seq<char>, String>,
    teams: Map<Seq<char>, String>,
)
    ensures
        lost_doc_creators(Seq::empty(), users) == 0,
        lost_owners(Seq::empty(), users, teams) == 0,
        lost_parents(Seq::empty(), e) == 0,
        lost_doc_creators(v.push(d), users) == lost_doc_creators(v, users) + (match d.created_by {
            Some(u) => if users.contains_key(u@) {
                0int
            } else {
                1int
            },
            None => 0int,
        }),
        lost_owners(v.push(d), users, teams) == lost_owners(v, users, teams)
            + d.owner_user_ids@.filter(|u: String| !users.contains_key(u@)).len()
            + d.owner_team_ids@.filter(|u: String| !teams.contains_key(u@)).len(),
        lost_parents(v.push(d), e) == lost_parents(v, e) + (match d.parent_item_id {
            Some(p) => if exists|i: int|
                0 <= i < e.items@.len() && (#[trigger] e.items@[i]).id@ == p@ {
                0int
            } else {
                1int
            },
            None => 0int,
        }) + (match d.parent_milestone_id {
            Some(p) => if e.milestones.definitions@.contains_key(p@) {
                0int
            } else {
                1int
            },
            None => 0int,
        }),
{
    assert(v.push(d).drop_last() =~= v);
    lemma_unmapped(d.owner_user_ids@, users);
    lemma_unmapped(d.owner_team_ids@, teams);
}

/// Every loss is told of with its number and in its own words.
pub proof fn lemma_warning_texts(c: ImportCounters)
    ensures
        c.dropped_assignees > 0 ==> warnings_of(c).contains(
            text::decimal(c.dropped_assignees as nat)
                + " item assignments referenced users with no match in this organization and were dropped"@,
        ),
        c.dropped_teams > 0 ==> warnings_of(c).contains(
            text::decimal(c.dropped_teams as nat)
                + " team assignments referenced teams with no match in this organization and were dropped"@,
        ),
        c.unmapped_authors > 0 ==> warnings_of(c).contains(
            text::decimal(c.unmapped_authors as nat)
                + " comment authors had no match in this organization; their comments keep the exported name without an account"@,
        ),
        c.fallback_creators > 0 ==> warnings_of(c).contains(
            text::decimal(c.fallback_creators as nat)
                + " items or documents were created by users with no match in this organization; the importer is recorded as creator"@,
        ),
        c.dropped_doc_owners > 0 ==> warnings_of(c).contains(
            text::decimal(c.dropped_doc_owners as nat)
                + " document owners had no match in this organization and were dropped"@,
        ),
        c.dropped_doc_parents > 0 ==> warnings_of(c).contains(
            text::decimal(c.dropped_doc_parents as nat)
                + " document parent links referenced items or milestones missing from the export and were dropped"@,
        ),
        c.dropped_filter_tokens > 0 ==> warnings_of(c).contains(
            text::decimal(c.dropped_filter_tokens as nat)
                + " saved-view filters referenced people or teams with no match in this organization and were removed"@,
        ),
{
    let w0: Seq<Seq<char>> = seq![];
    let t1 = " item assignments referenced users with no match in this organization and were dropped"@;
    let t2 = " team assignments referenced teams with no match in this organization and were dropped"@;
    let t3 = " comment authors had no match in this organization; their comments keep the exported name without an account"@;
    let t4 = " items or documents were created by users with no match in this organization; the importer is recorded as creator"@;
    let t5 = " document owners had no match in this organization and were dropped"@;
    let t6 = " document parent links referenced items or milestones missing from the export and were dropped"@;
    let t7 = " saved-view filters referenced people or teams with no match in this organization and were removed"@;
    let w1 = with_warning(w0, c.dropped_assignees, t1);
    let w2 = with_warning(w1, c.dropped_teams, t2);
    let w3 = with_warning(w2, c.unmapped_authors, t3);
    let w4 = with_warning(w3, c.fallback_creators, t4);
    let w5 = with_warning(w4, c.dropped_doc_owners, t5);
    let w6 = with_warning(w5, c.dropped_doc_parents, t6);
    let w7 = with_warning(w6, c.dropped_filter_tokens, t7);
    assert(warnings_of(c) == w7);
    lemma_warned(w0, c.dropped_assignees, t1);
    lemma_warned(w1, c.dropped_teams, t2);
    lemma_warned(w2, c.unmapped_authors, t3);
    lemma_warned(w3, c.fallback_creators, t4);
    lemma_warned(w4, c.dropped_doc_owners, t5);
    lemma_warned(w5, c.dropped_doc_parents, t6);
    lemma_warned(w6, c.dropped_filter_tokens, t7);
}

proof fn lemma_warned(v: Seq<Seq<char>>, n: usize, tail: Seq<char>)
    ensures
        n > 0 ==> with_warning(v, n, tail).contains(text::decimal(n as nat) + tail),
        forall|x: Seq<char>| #[trigger] v.contains(x) ==> with_warning(v, n, tail).contains(x),
{
    let w = with_warning(v, n, tail);
    if n > 0 {
        assert(w[v.len() as int] == text::decimal(n as nat) + tail);
    }
    assert forall|x: Seq<char>| #[trigger] v.contains(x) implies w.contains(x) by {
        let k = choose|k: int| 0 <= k < v.len() && v[k] == x;
        assert(w[k] == x);
    }
}

// ---------------------------------------------------------------------------
// What is told
// ---------------------------------------------------------------------------

/// How many of the ids are not mapped.
pub open spec fn unknown(ids: Seq<String>, map: Map<Seq<char>, String>) -> nat {
    ids.filter(|u: String| !map.contains_key(u@)).len()
}

/// One, where someone is named who is not mapped.
pub open spec fn unknown_one(o: Option<String>, map: Map<Seq<char>, String>) -> nat {
    if o is Some && !map.contains_key(o->0@) {
        1
    } else {
        0
    }
}

/// The sum of a number over a list.
pub open spec fn total<A>(v: Seq<A>, f: spec_fn(A) -> nat) -> nat
    decreases v.len(),
{
    if v.len() == 0 {
        0
    } else {
        f(v[0]) + total(v.skip(1), f)
    }
}

proof fn lemma_total<A>(v: Seq<A>, f: spec_fn(A) -> nat)
    requires
        v.len() > 0,
    ensures
        total(v, f) == total(v.drop_last(), f) + f(v.last()),
    decreases v.len(),
{
    if v.len() > 1 {
        let w = v.skip(1);
        lemma_total(w, f);
        assert(w.drop_last() =~= v.drop_last().skip(1));
    } else {
        assert(v.drop_last() =~= seq![]);
        assert(v.skip(1) =~= seq![]);
        assert(total(v.drop_last(), f) == 0);
        assert(total(v.skip(1), f) == 0);
    }
}

/// How many parents of a document are named and not in the export.
pub open spec fn unknown_parents(d: ExportDocument, e: SpaceExport) -> nat {
    let item: nat = if d.parent_item_id is Some && !(exists|i: int|
        0 <= i < e.items@.len() && (#[trigger] e.items@[i]).id@ == d.parent_item_id->0@) {
        1
    } else {
        0
    };
    let milestone: nat = if d.parent_milestone_id is Some && !e.milestones.definitions@.contains_key(
        d.parent_milestone_id->0@,
    ) {
        1
    } else {
        0
    };
    item + milestone
}

/// How many filters of a view name a user or a team that is not mapped.
pub open spec fn unknown_filters(
    v: TemplateViewDef,
    users: Map<Seq<char>, String>,
    teams: Map<Seq<char>, String>,
) -> nat {
    match v.filters {
        Some(f) => filter_token::tokens_of(f@).filter(
            |t: Seq<char>| filter_token::import_token(t, users, teams) is None,
        ).len(),
        None => 0,
    }
}

proof fn lemma_dropped_tokens(
    tokens: Seq<Seq<char>>,
    users: Map<Seq<char>, String>,
    teams: Map<Seq<char>, String>,
)
    ensures
        tokens.len() - filter_token::import_tokens(tokens, users, teams).len() == tokens.filter(
            |t: Seq<char>| filter_token::import_token(t, users, teams) is None,
        ).len(),
    decreases tokens.len(),
{
    reveal(Seq::filter);
    if tokens.len() > 0 {
        lemma_dropped_tokens(tokens.drop_last(), users, teams);
    }
}

proof fn lemma_item_totals(
    v: Seq<ExportItem>,
    users: Map<Seq<char>, String>,
    teams: Map<Seq<char>, String>,
)
    ensures
        lost_assignees(v, users) == total(v, |i: ExportItem| unknown(i.assignee_user_ids@, users)),
        lost_teams(v, teams) == total(v, |i: ExportItem| unknown(i.assignee_team_ids@, teams)),
        lost_item_creators(v, users) == total(v, |i: ExportItem| unknown_one(i.created_by, users)),
    decreases v.len(),
{
    if v.len() > 0 {
        let w = v.drop_last();
        lemma_item_totals(w, users, teams);
        lemma_item_losses(w, v.last(), users, teams);
        assert(w.push(v.last()) =~= v);
        lemma_total(v, |i: ExportItem| unknown(i.assignee_user_ids@, users));
        lemma_total(v, |i: ExportItem| unknown(i.assignee_team_ids@, teams));
        lemma_total(v, |i: ExportItem| unknown_one(i.created_by, users));
    }
}

proof fn lemma_document_totals(
    v: Seq<ExportDocument>,
    e: SpaceExport,
    users: Map<Seq<char>, String>,
    teams: Map<Seq<char>, String>,
)
    ensures
        lost_doc_creators(v, users) == total(
            v,
            |d: ExportDocument| unknown_one(d.created_by, users),
        ),
        lost_owners(v, users, teams) == total(
            v,
            |d: ExportDocument| unknown(d.owner_user_ids@, users) + unknown(d.owner_team_ids@, teams),
        ),
        lost_parents(v, e) == total(v, |d: ExportDocument| unknown_parents(d, e)),
    decreases v.len(),
{
    if v.len() > 0 {
        let w = v.drop_last();
        lemma_document_totals(w, e, users, teams);
        lemma_document_losses(w, v.last(), e, users, teams);
        assert(w.push(v.last()) =~= v);
        lemma_total(v, |d: ExportDocument| unknown_one(d.created_by, users));
        lemma_total(
            v,
            |d: ExportDocument| unknown(d.owner_user_ids@, users) + unknown(d.owner_team_ids@, teams),
        );
        lemma_total(v, |d: ExportDocument| unknown_parents(d, e));
    }
}

proof fn lemma_filter_total(
    v: Seq<(String, TemplateViewDef)>,
    users: Map<Seq<char>, String>,
    teams: Map<Seq<char>, String>,
)
    ensures
        lost_filters(v, users, teams) == total(
            v,
            |p: (String, TemplateViewDef)| unknown_filters(p.1, users, teams),
        ),
    decreases v.len(),
{
    if v.len() > 0 {
        lemma_filter_total(v.drop_last(), users, teams);
        lemma_total(v, |p: (String, TemplateViewDef)| unknown_filters(p.1, users, teams));
        if let Some(f) = v.last().1.filters {
            lemma_dropped_tokens(filter_token::tokens_of(f@), users, teams);
        }
    }
}

/// Whether there is a warning of `n` losses of a kind, where there are any.
pub open spec fn tells(w: Seq<String>, n: nat, tail: Seq<char>) -> bool {
    0 < n <= usize::MAX ==> text::texts(w).contains(text::decimal(n) + tail)
}

/// The warnings of an import tell, each in its own words and with the number, of the
/// assignments of users and of teams, of the authors of comments, of the creators of items
/// and documents, of the owners and of the parents of documents and of the filters of views
/// that are not mapped or not there. Without any of them there is no warning.
pub proof fn lemma_losses_told(
    c: ImportCounters,
    w: Seq<String>,
    e: SpaceExport,
    users: Map<Seq<char>, String>,
    teams: Map<Seq<char>, String>,
)
    requires
        counters_are(c, e, users, teams),
        text::texts(w) == warnings_of(c),
    ensures
        ({
            let assignees = total(
                e.items@,
                |i: ExportItem| unknown(i.assignee_user_ids@, users),
            );
            let assigned = total(e.items@, |i: ExportItem| unknown(i.assignee_team_ids@, teams));
            let creators = total(e.items@, |i: ExportItem| unknown_one(i.created_by, users))
                + total(e.documents@, |d: ExportDocument| unknown_one(d.created_by, users));
            let owners = total(
                e.documents@,
                |d: ExportDocument|
                    unknown(d.owner_user_ids@, users) + unknown(d.owner_team_ids@, teams),
            );
            let parents = total(e.documents@, |d: ExportDocument| unknown_parents(d, e));
            let filters = total(
                e.views.definitions.pairs(),
                |p: (String, TemplateViewDef)| unknown_filters(p.1, users, teams),
            );
            &&& tells(
                w,
                assignees,
                " item assignments referenced users with no match in this organization and were dropped"@,
            )
            &&& tells(
                w,
                assigned,
                " team assignments referenced teams with no match in this organization and were dropped"@,
            )
            &&& tells(
                w,
                lost_authors(e.items@, users).len(),
                " comment authors had no match in this organization; their comments keep the exported name without an account"@,
            )
            &&& tells(
                w,
                creators,
                " items or documents were created by users with no match in this organization; the importer is recorded as creator"@,
            )
            &&& tells(
                w,
                owners,
                " document owners had no match in this organization and were dropped"@,
            )
            &&& tells(
                w,
                parents,
                " document parent links referenced items or milestones missing from the export and were dropped"@,
            )
            &&& tells(
                w,
                filters,
                " saved-view filters referenced people or teams with no match in this organization and were removed"@,
            )
            &&& assignees + assigned + creators + owners + parents + filters + lost_authors(
                e.items@,
                users,
            ).len() == 0 ==> w.len() == 0
        }),
{
    lemma_item_totals(e.items@, users, teams);
    lemma_document_totals(e.documents@, e, users, teams);
    lemma_filter_total(e.views.definitions.pairs(), users, teams);
    lemma_warning_texts(c);
    lemma_warnings(c);
}

} // verus!
