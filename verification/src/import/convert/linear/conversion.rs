//! The conversion of a Linear team.

use vstd::prelude::*;
use vstd::string::StringExecFns;

use crate::calendar;
use crate::codec;
use crate::export::types::{
    ExportComment, ExportCycle, ExportDocument, ExportItem, ExportMilestoneDef, ExportMilestones,
    ExportUser, SpaceExport,
};
use crate::import::convert::common::{
    self, Attachments, Gathered, MilestoneView, MilestonesView, add_milestone, content_is, det,
    det_id, index_of, is_index, markdown_to_content_yjs, none_gathered, opt_det, or_empty,
    or_if_empty, position_of, text_map, text_or_empty, text_or_if_empty,
};
use crate::import::convert::linear::labels::{
    self, LabelBuild, build_labels, is_build, issue_labels, label_id, labels_of_issue, tag_warning,
};
use crate::import::convert::linear::uploads::{
    Upload, all_noted, lemma_noted_append, rewrite_inline_images, rewritten, uploads,
};
use crate::import::convert::linear::{
    LinearComment, LinearCycle, LinearDocument, LinearIssue, LinearProject, LinearProjectMilestone,
    LinearRef, LinearRelation, LinearUser, LinearWorkspace, NS_LINEAR,
};
use crate::str_map::StrMap;
use crate::text;

verus! {

/// The export of a team, and the attachments whose bytes are still to be fetched.
#[derive(Debug)]
pub struct LinearConversion {
    pub export: SpaceExport,
    /// Warnings about what was dropped.
    pub warnings: Vec<String>,
    /// The URL of each attachment, by id.
    pub attachment_urls: StrMap<String>,
}

/// The id that a reference holds.
pub open spec fn ref_id(o: Option<LinearRef>) -> Option<Seq<char>> {
    match o {
        Some(r) => Some(r.id@),
        None => None,
    }
}

fn opt_id(kind: &str, o: &Option<LinearRef>) -> (r: Option<String>)
    ensures
        text::opt_text(r) == opt_det(NS_LINEAR, kind@, ref_id(*o)),
{
    match o {
        Some(x) => Some(det_id(NS_LINEAR, kind, x.id.as_str())),
        None => None,
    }
}

// ---------------------------------------------------------------------------
// Users
// ---------------------------------------------------------------------------

/// Whether `u` is the export of a user.
pub open spec fn user_is(u: ExportUser, l: LinearUser) -> bool {
    &&& u.id@ == det(NS_LINEAR, "user"@, l.id@)
    &&& u.display_name@ == or_if_empty(l.name@, "Unknown user"@)
    &&& text::opt_text(u.email) == text::opt_text(l.email)
}

pub open spec fn users_are(out: Seq<ExportUser>, v: Seq<LinearUser>) -> bool {
    out.len() == v.len() && forall|i: int| 0 <= i < v.len() ==> user_is(#[trigger] out[i], v[i])
}

fn convert_users(v: &Vec<LinearUser>) -> (r: Vec<ExportUser>)
    ensures
        users_are(r@, v@),
{
    let mut out: Vec<ExportUser> = Vec::new();
    let mut i: usize = 0;
    while i < v.len()
        invariant
            i <= v@.len(),
            out@.len() == i,
            forall|k: int| 0 <= k < i ==> user_is(#[trigger] out@[k], v@[k]),
        decreases v@.len() - i,
    {
        let u = &v[i];
        out.push(
            ExportUser {
                id: det_id(NS_LINEAR, "user", u.id.as_str()),
                display_name: text_or_if_empty(u.name.as_str(), "Unknown user").to_owned(),
                email: u.email.clone(),
            },
        );
        i = i + 1;
    }
    out
}

/// The first user who is active.
pub open spec fn first_active(v: Seq<LinearUser>) -> Option<Seq<char>>
    decreases v.len(),
{
    if v.len() == 0 {
        None
    } else {
        match first_active(v.drop_last()) {
            Some(id) => Some(id),
            None => if v.last().active {
                Some(v.last().id@)
            } else {
                None
            },
        }
    }
}

/// Who is recorded as uploader: the first active user, or else the first, or else
/// nobody.
pub open spec fn uploader(v: Seq<LinearUser>) -> Seq<char> {
    match first_active(v) {
        Some(id) => det(NS_LINEAR, "user"@, id),
        None => if v.len() > 0 {
            det(NS_LINEAR, "user"@, v[0].id@)
        } else {
            codec::nil_uuid_text()
        },
    }
}

fn provenance_user(v: &Vec<LinearUser>) -> (r: String)
    ensures
        r@ == uploader(v@),
{
    let mut i: usize = 0;
    assert(v@.take(0) =~= seq![]);
    while i < v.len()
        invariant
            i <= v@.len(),
            first_active(v@.take(i as int)) is None,
        decreases v@.len() - i,
    {
        assert(v@.take(i + 1).drop_last() =~= v@.take(i as int));
        if v[i].active {
            proof {
                lemma_first_active(v@, i + 1);
            }
            return det_id(NS_LINEAR, "user", v[i].id.as_str());
        }
        i = i + 1;
    }
    assert(v@.take(v@.len() as int) =~= v@);
    if v.len() > 0 {
        det_id(NS_LINEAR, "user", v[0].id.as_str())
    } else {
        codec::nil_uuid()
    }
}

proof fn lemma_first_active(v: Seq<LinearUser>, n: int)
    requires
        0 <= n <= v.len(),
        first_active(v.take(n)) is Some,
    ensures
        first_active(v) == first_active(v.take(n)),
    decreases v.len() - n,
{
    if n < v.len() {
        assert(v.take(n + 1).drop_last() =~= v.take(n));
        lemma_first_active(v, n + 1);
    } else {
        assert(v.take(n) =~= v);
    }
}

/// The ids of the users.
pub open spec fn user_ids(v: Seq<LinearUser>) -> Seq<Seq<char>> {
    v.map_values(|u: LinearUser| u.id@)
}

/// The name of a user, where there is such a user with a name.
pub open spec fn user_name(v: Seq<LinearUser>, id: Option<Seq<char>>) -> Option<Seq<char>> {
    match id {
        Some(i) => match index_of(user_ids(v), i) {
            Some(k) => if v[k].name@.len() > 0 {
                Some(v[k].name@)
            } else {
                None
            },
            None => None,
        },
        None => None,
    }
}

// ---------------------------------------------------------------------------
// Milestones and cycles
// ---------------------------------------------------------------------------

/// The milestones of the projects, in order.
pub open spec fn milestone_nodes(v: Seq<LinearProject>) -> Seq<LinearProjectMilestone>
    decreases v.len(),
{
    if v.len() == 0 {
        seq![]
    } else {
        milestone_nodes(v.drop_last()) + v.last().project_milestones.nodes@
    }
}

pub open spec fn milestone_of(m: LinearProjectMilestone) -> MilestoneView {
    MilestoneView {
        id: det(NS_LINEAR, "milestone"@, m.id@),
        name: m.name@,
        description: None,
        deadline: text::opt_text(m.target_date),
        deprecated: false,
    }
}

/// The milestones, each id once.
pub open spec fn milestones_of(v: Seq<LinearProjectMilestone>) -> MilestonesView
    decreases v.len(),
{
    if v.len() == 0 {
        common::no_milestones()
    } else {
        common::with_milestone(milestones_of(v.drop_last()), milestone_of(v.last()))
    }
}

fn convert_milestones(v: &Vec<LinearProject>) -> (r: ExportMilestones)
    ensures
        common::milestones_view(r) == milestones_of(milestone_nodes(v@)),
{
    let mut out = common::new_milestones();
    let mut i: usize = 0;
    assert(v@.take(0) =~= seq![]);
    while i < v.len()
        invariant
            i <= v@.len(),
            common::milestones_view(out) == milestones_of(milestone_nodes(v@.take(i as int))),
        decreases v@.len() - i,
    {
        let nodes = &v[i].project_milestones.nodes;
        let ghost before = milestone_nodes(v@.take(i as int));
        let mut k: usize = 0;
        assert(before + nodes@.take(0) =~= before);
        while k < nodes.len()
            invariant
                k <= nodes@.len(),
                common::milestones_view(out) == milestones_of(before + nodes@.take(k as int)),
            decreases nodes@.len() - k,
        {
            let m = &nodes[k];
            add_milestone(
                &mut out,
                ExportMilestoneDef {
                    id: det_id(NS_LINEAR, "milestone", m.id.as_str()),
                    name: m.name.clone(),
                    description: None,
                    deadline: m.target_date.clone(),
                    deprecated: false,
                },
            );
            proof {
                let t = before + nodes@.take(k + 1);
                assert(t.drop_last() =~= before + nodes@.take(k as int));
                assert(t.last() == *m);
            }
            k = k + 1;
        }
        proof {
            assert(nodes@.take(nodes@.len() as int) =~= nodes@);
            assert(v@.take(i + 1).drop_last() =~= v@.take(i as int));
        }
        i = i + 1;
    }
    assert(v@.take(v@.len() as int) =~= v@);
    out
}

/// The name of a cycle: its own, or one from its number.
pub open spec fn cycle_name_of(c: LinearCycle) -> Seq<char> {
    if c.name is Some && text::trim_of(c.name->0@).len() > 0 {
        c.name->0@
    } else {
        match c.number {
            Some(n) => "Cycle "@ + text::int_text_of(n as int),
            None => "Cycle"@,
        }
    }
}

/// The name of a cycle: its own where it is not blank, or one from its number.
pub fn cycle_name(c: &LinearCycle) -> (r: String)
    ensures
        r@ == cycle_name_of(*c),
{
    if let Some(name) = &c.name {
        if !common::is_blank(name.as_str()) {
            return name.clone();
        }
    }
    match c.number {
        Some(n) => "Cycle ".to_owned().concat(text::int_text(n).as_str()),
        None => "Cycle".to_owned(),
    }
}

/// Whether `o` is the export of a cycle.
pub open spec fn cycle_is(o: ExportCycle, c: LinearCycle) -> bool {
    &&& o.id@ == det(NS_LINEAR, "cycle"@, c.id@)
    &&& o.name@ == cycle_name_of(c)
    &&& o.start_date@ == or_empty(c.starts_at)
    &&& o.end_date@ == or_empty(c.ends_at)
    &&& !o.archived
}

pub open spec fn cycles_are(out: Seq<ExportCycle>, v: Seq<LinearCycle>) -> bool {
    out.len() == v.len() && forall|i: int| 0 <= i < v.len() ==> cycle_is(#[trigger] out[i], v[i])
}

fn convert_cycles(v: &Vec<LinearCycle>) -> (r: Vec<ExportCycle>)
    ensures
        cycles_are(r@, v@),
{
    let mut out: Vec<ExportCycle> = Vec::new();
    let mut i: usize = 0;
    while i < v.len()
        invariant
            i <= v@.len(),
            out@.len() == i,
            forall|k: int| 0 <= k < i ==> cycle_is(#[trigger] out@[k], v@[k]),
        decreases v@.len() - i,
    {
        let c = &v[i];
        out.push(
            ExportCycle {
                id: det_id(NS_LINEAR, "cycle", c.id.as_str()),
                name: cycle_name(c),
                start_date: text_or_empty(&c.starts_at),
                end_date: text_or_empty(&c.ends_at),
                archived: false,
            },
        );
        i = i + 1;
    }
    out
}

// ---------------------------------------------------------------------------
// Items
// ---------------------------------------------------------------------------

/// The description of an issue, where it is not blank.
pub open spec fn description_of(i: LinearIssue) -> Option<Seq<char>> {
    match i.description {
        Some(d) => if text::trim_of(d@).len() == 0 {
            None
        } else {
            Some(d@)
        },
        None => None,
    }
}

/// Whether the description of an item is that of the issue, with its links to
/// uploaded files rewritten.
pub open spec fn description_is(o: ExportItem, i: LinearIssue, space: Seq<char>) -> bool {
    match description_of(i) {
        Some(d) => {
            &&& text::opt_text(o.description_text) == Some(rewritten(d, space))
            &&& content_is(o.description_yjs, rewritten(d, space))
        },
        None => o.description_text is None && o.description_yjs is None,
    }
}

/// The one that a list of at most one holds.
pub open spec fn just(o: Option<Seq<char>>) -> Seq<Seq<char>> {
    match o {
        Some(s) => seq![s],
        None => seq![],
    }
}

/// Whether `o` is the export of an issue, apart from relations and comments.
pub open spec fn item_fields(
    o: ExportItem,
    i: LinearIssue,
    src: LinearWorkspace,
    space: Seq<char>,
) -> bool {
    &&& o.id@ == det(NS_LINEAR, "item"@, i.id@)
    &&& o.short_id == Some(i.number)
    &&& o.title@ == i.title@
    &&& description_is(o, i, space)
    &&& text_map(o.labels@) == issue_labels(i, src)
    &&& text::texts(o.assignee_user_ids@) == just(opt_det(NS_LINEAR, "user"@, ref_id(i.assignee)))
    &&& o.assignee_team_ids@.len() == 0
    &&& text::opt_text(o.due_date) == text::opt_text(i.due_date)
    &&& text::opt_text(o.start_date) == text::opt_text(i.started_at)
    &&& text::opt_text(o.milestone_id) == opt_det(
        NS_LINEAR,
        "milestone"@,
        ref_id(i.project_milestone),
    )
    &&& text::opt_text(o.cycle_id) == opt_det(NS_LINEAR, "cycle"@, ref_id(i.cycle))
    &&& text::opt_text(o.parent_id) == opt_det(NS_LINEAR, "item"@, ref_id(i.parent))
    &&& o.archived == (i.archived_at is Some)
    &&& !o.deep_archived
    &&& text::opt_text(o.created_at) == text::opt_text(i.created_at)
    &&& text::opt_text(o.created_by) == opt_det(NS_LINEAR, "user"@, ref_id(i.creator))
    &&& text::opt_text(o.updated_at) == text::opt_text(i.updated_at)
    &&& text::opt_text(o.archived_at) == text::opt_text(i.archived_at)
    &&& o.completion_prompt is None
    &&& o.completion_note_text is None
    &&& o.completion_note_yjs is None
}

/// The files that the descriptions of the issues link, in order.
pub open spec fn description_uploads(v: Seq<LinearIssue>, space: Seq<char>) -> Seq<Upload>
    decreases v.len(),
{
    if v.len() == 0 {
        seq![]
    } else {
        let rest = description_uploads(v.drop_last(), space);
        match description_of(v.last()) {
            Some(d) => rest + uploads(d, space),
            None => rest,
        }
    }
}

/// The warnings for the labels of the issues.
pub open spec fn tag_warnings(v: Seq<LinearIssue>, src: LinearWorkspace) -> Seq<Seq<char>>
    decreases v.len(),
{
    if v.len() == 0 {
        seq![]
    } else {
        tag_warnings(v.drop_last(), src) + tag_warning(v.last(), src)
    }
}

fn convert_issue(
    i: &LinearIssue,
    b: &LabelBuild,
    Ghost(src): Ghost<LinearWorkspace>,
    space: &str,
    by: &str,
    now: &str,
    atts: &mut Attachments,
    warnings: &mut Vec<String>,
) -> (r: ExportItem)
    requires
        is_build(*b, src),
    ensures
        item_fields(r, *i, src, space@),
        r.blocked_by@.len() == 0,
        r.duplicate_of is None,
        r.comments@.len() == 0,
        final(atts)@ == (match description_of(*i) {
            Some(d) => all_noted(old(atts)@, uploads(d, space@), by@, now@),
            None => old(atts)@,
        }),
        text::texts(final(warnings)@) == text::texts(old(warnings)@) + tag_warning(*i, src),
{
    let labels = labels_of_issue(i, b, Ghost(src), warnings);
    let mut description_text: Option<String> = None;
    let mut description_yjs: Option<String> = None;
    if let Some(d) = &i.description {
        if !common::is_blank(d.as_str()) {
            let text = rewrite_inline_images(d.as_str(), space, atts, by, now);
            description_yjs = markdown_to_content_yjs(text.as_str());
            description_text = Some(text);
        }
    }
    let mut assignee_user_ids: Vec<String> = Vec::new();
    if let Some(a) = &i.assignee {
        assignee_user_ids.push(det_id(NS_LINEAR, "user", a.id.as_str()));
    }
    assert(text::texts(assignee_user_ids@) =~= just(
        opt_det(NS_LINEAR, "user"@, ref_id(i.assignee)),
    ));
    ExportItem {
        id: det_id(NS_LINEAR, "item", i.id.as_str()),
        short_id: Some(i.number),
        title: i.title.clone(),
        description_text,
        description_yjs,
        labels,
        assignee_user_ids,
        assignee_team_ids: Vec::new(),
        due_date: i.due_date.clone(),
        start_date: i.started_at.clone(),
        milestone_id: opt_id("milestone", &i.project_milestone),
        cycle_id: opt_id("cycle", &i.cycle),
        parent_id: opt_id("item", &i.parent),
        blocked_by: Vec::new(),
        duplicate_of: None,
        archived: i.archived_at.is_some(),
        deep_archived: false,
        created_at: i.created_at.clone(),
        created_by: opt_id("user", &i.creator),
        updated_at: i.updated_at.clone(),
        archived_at: i.archived_at.clone(),
        completion_prompt: None,
        completion_note_text: None,
        completion_note_yjs: None,
        comments: Vec::new(),
    }
}

fn convert_issues(
    src: &LinearWorkspace,
    b: &LabelBuild,
    space: &str,
    by: &str,
    now: &str,
    atts: &mut Attachments,
    warnings: &mut Vec<String>,
) -> (r: Vec<ExportItem>)
    requires
        is_build(*b, *src),
    ensures
        r@.len() == src.issues@.len(),
        forall|k: int|
            0 <= k < r@.len() ==> {
                &&& item_fields(#[trigger] r@[k], src.issues@[k], *src, space@)
                &&& r@[k].blocked_by@.len() == 0
                &&& r@[k].duplicate_of is None
                &&& r@[k].comments@.len() == 0
            },
        final(atts)@ == all_noted(
            old(atts)@,
            description_uploads(src.issues@, space@),
            by@,
            now@,
        ),
        text::texts(final(warnings)@) == text::texts(old(warnings)@) + tag_warnings(
            src.issues@,
            *src,
        ),
{
    let ghost v = src.issues@;
    let ghost g = atts@;
    let ghost w = text::texts(warnings@);
    let mut out: Vec<ExportItem> = Vec::new();
    let mut i: usize = 0;
    assert(v.take(0) =~= seq![]);
    assert(w + seq![] =~= w);
    while i < src.issues.len()
        invariant
            i <= v.len(),
            v == src.issues@,
            is_build(*b, *src),
            out@.len() == i,
            forall|k: int|
                0 <= k < i ==> {
                    &&& item_fields(#[trigger] out@[k], v[k], *src, space@)
                    &&& out@[k].blocked_by@.len() == 0
                    &&& out@[k].duplicate_of is None
                    &&& out@[k].comments@.len() == 0
                },
            atts@ == all_noted(g, description_uploads(v.take(i as int), space@), by@, now@),
            text::texts(warnings@) == w + tag_warnings(v.take(i as int), *src),
        decreases v.len() - i,
    {
        proof {
            assert(v.take(i + 1).drop_last() =~= v.take(i as int));
            if let Some(d) = description_of(v[i as int]) {
                lemma_noted_append(
                    g,
                    description_uploads(v.take(i as int), space@),
                    uploads(d, space@),
                    by@,
                    now@,
                );
            }
        }
        let item = convert_issue(&src.issues[i], b, Ghost(*src), space, by, now, atts, warnings);
        out.push(item);
        assert(text::texts(warnings@) =~= w + tag_warnings(v.take(i + 1), *src));
        i = i + 1;
    }
    assert(v.take(v.len() as int) =~= v);
    out
}

// ---------------------------------------------------------------------------
// Relations
// ---------------------------------------------------------------------------

/// The ids of the issues.
pub open spec fn issue_ids(v: Seq<LinearIssue>) -> Seq<Seq<char>> {
    v.map_values(|i: LinearIssue| i.id@)
}

/// The two issues of a relation, where both are imported.
pub open spec fn ends(r: LinearRelation, ids: Seq<Seq<char>>) -> Option<(Seq<char>, Seq<char>)> {
    match (ref_id(r.issue), ref_id(r.related_issue)) {
        (Some(a), Some(b)) => if ids.contains(a) && ids.contains(b) {
            Some((a, b))
        } else {
            None
        },
        _ => None,
    }
}

/// The items that block the item at `k`: those of each relation by which an issue
/// blocks it.
pub open spec fn blockers(v: Seq<LinearRelation>, ids: Seq<Seq<char>>, k: int) -> Seq<Seq<char>>
    decreases v.len(),
{
    if v.len() == 0 {
        seq![]
    } else {
        let rest = blockers(v.drop_last(), ids, k);
        let r = v.last();
        match ends(r, ids) {
            Some((a, b)) => if r.relation_type@ == "blocks"@ && index_of(ids, b) == Some(k) {
                rest.push(det(NS_LINEAR, "item"@, a))
            } else {
                rest
            },
            None => rest,
        }
    }
}

/// The item that the item at `k` is a duplicate of: that of the last such relation.
pub open spec fn duplicated(v: Seq<LinearRelation>, ids: Seq<Seq<char>>, k: int) -> Option<Seq<char>>
    decreases v.len(),
{
    if v.len() == 0 {
        None
    } else {
        let rest = duplicated(v.drop_last(), ids, k);
        let r = v.last();
        match ends(r, ids) {
            Some((a, b)) => if r.relation_type@ == "duplicate"@ && index_of(ids, a) == Some(k) {
                Some(det(NS_LINEAR, "item"@, b))
            } else {
                rest
            },
            None => rest,
        }
    }
}

/// How many relations lead out of the import.
pub open spec fn dropped_relations(v: Seq<LinearRelation>, ids: Seq<Seq<char>>) -> int
    decreases v.len(),
{
    if v.len() == 0 {
        0
    } else {
        let rest = dropped_relations(v.drop_last(), ids);
        if ends(v.last(), ids) is None {
            rest + 1
        } else {
            rest
        }
    }
}

/// The warning for relations that lead out of the import.
pub open spec fn relation_warning(n: int) -> Seq<Seq<char>> {
    if n > 0 {
        seq![
            text::decimal(n as nat)
                + " issue relation(s) referenced an issue outside the import and were dropped"@,
        ]
    } else {
        seq![]
    }
}

/// Whether the relations of the items are those of `v`.
pub open spec fn related(items: Seq<ExportItem>, v: Seq<LinearRelation>, ids: Seq<Seq<char>>) -> bool {
    forall|k: int|
        0 <= k < items.len() ==> {
            &&& text::texts((#[trigger] items[k]).blocked_by@) == blockers(v, ids, k)
            &&& text::opt_text(items[k].duplicate_of) == duplicated(v, ids, k)
        }
}

fn block(item: &mut ExportItem, by: String)
    ensures
        *final(item) == (ExportItem { blocked_by: final(item).blocked_by, ..*old(item) }),
        text::texts(final(item).blocked_by@) == text::texts(old(item).blocked_by@).push(by@),
{
    let ghost before = item.blocked_by@;
    item.blocked_by.push(by);
    assert(text::texts(item.blocked_by@) =~= text::texts(before).push(by@));
}

/// Whether two items differ in relations and comments at most.
pub open spec fn same_fields(a: ExportItem, b: ExportItem) -> bool {
    a == (ExportItem {
        blocked_by: a.blocked_by,
        duplicate_of: a.duplicate_of,
        comments: a.comments,
        ..b
    })
}

fn apply_relations(
    items: &mut Vec<ExportItem>,
    v: &Vec<LinearRelation>,
    index: &StrMap<usize>,
    Ghost(ids): Ghost<Seq<Seq<char>>>,
) -> (r: usize)
    requires
        is_index(index@, ids),
        old(items)@.len() == ids.len(),
        forall|k: int|
            0 <= k < old(items)@.len() ==> (#[trigger] old(items)@[k]).blocked_by@.len() == 0
                && old(items)@[k].duplicate_of is None,
    ensures
        final(items)@.len() == old(items)@.len(),
        forall|k: int|
            0 <= k < final(items)@.len() ==> same_fields(#[trigger] final(items)@[k], old(items)@[k])
                && final(items)@[k].comments == old(items)@[k].comments,
        related(final(items)@, v@, ids),
        r == dropped_relations(v@, ids),
{
    let ghost was = items@;
    let mut dropped: usize = 0;
    let mut i: usize = 0;
    proof {
        assert(v@.take(0) =~= seq![]);
        assert forall|k: int| 0 <= k < items@.len() implies text::texts(
            (#[trigger] items@[k]).blocked_by@,
        ) == blockers(v@.take(0), ids, k) by {
            assert(text::texts(items@[k].blocked_by@) =~= seq![]);
        }
    }
    while i < v.len()
        invariant
            i <= v@.len(),
            is_index(index@, ids),
            items@.len() == ids.len(),
            items@.len() == was.len(),
            forall|k: int|
                0 <= k < items@.len() ==> same_fields(#[trigger] items@[k], was[k])
                    && items@[k].comments == was[k].comments,
            related(items@, v@.take(i as int), ids),
            dropped == dropped_relations(v@.take(i as int), ids),
            dropped <= i,
        decreases v@.len() - i,
    {
        let ghost before = items@;
        let rel = &v[i];
        proof {
            assert(v@.take(i + 1).drop_last() =~= v@.take(i as int));
            assert(v@.take(i + 1).last() == *rel);
        }
        let known = match (&rel.issue, &rel.related_issue) {
            (Some(a), Some(b)) => match (
                position_of(index, Ghost(ids), a.id.as_str()),
                position_of(index, Ghost(ids), b.id.as_str()),
            ) {
                (Some(ai), Some(bi)) => {
                    assert(ends(*rel, ids) == Some((a.id@, b.id@)));
                    Some((ai, bi, a, b))
                },
                _ => None,
            },
            _ => None,
        };
        match known {
            Some((ai, bi, a, b)) => {
                if text::str_eq(rel.relation_type.as_str(), "blocks") {
                    block(&mut items[bi], det_id(NS_LINEAR, "item", a.id.as_str()));
                    proof {
                        reveal_strlit("blocks");
                        reveal_strlit("duplicate");
                        assert("blocks"@.len() != "duplicate"@.len());
                        assert(items@ =~= before.update(bi as int, items@[bi as int]));
                    }
                } else if text::str_eq(rel.relation_type.as_str(), "duplicate") {
                    let id = det_id(NS_LINEAR, "item", b.id.as_str());
                    let item = &mut items[ai];
                    item.duplicate_of = Some(id);
                }
            },
            None => {
                dropped = dropped + 1;
            },
        }
        i = i + 1;
    }
    assert(v@.take(v@.len() as int) =~= v@);
    dropped
}

// ---------------------------------------------------------------------------
// Comments
// ---------------------------------------------------------------------------

/// The item that a comment belongs to.
pub open spec fn comment_target(c: LinearComment, ids: Seq<Seq<char>>) -> Option<int> {
    match ref_id(c.issue) {
        Some(i) => index_of(ids, i),
        None => None,
    }
}

/// The comments on the item at `k`, in order.
pub open spec fn comments_on(v: Seq<LinearComment>, ids: Seq<Seq<char>>, k: int) -> Seq<LinearComment>
    decreases v.len(),
{
    if v.len() == 0 {
        seq![]
    } else {
        let rest = comments_on(v.drop_last(), ids, k);
        if comment_target(v.last(), ids) == Some(k) {
            rest.push(v.last())
        } else {
            rest
        }
    }
}

/// Whether `o` is the export of a comment.
pub open spec fn comment_is(
    o: ExportComment,
    c: LinearComment,
    users: Seq<LinearUser>,
    space: Seq<char>,
) -> bool {
    let body = rewritten(c.body@, space);
    &&& o.id@ == det(NS_LINEAR, "comment"@, c.id@)
    &&& o.author_id@ == (match ref_id(c.user) {
        Some(u) => det(NS_LINEAR, "user"@, u),
        None => codec::nil_uuid_text(),
    })
    &&& text::opt_text(o.author_name) == user_name(users, ref_id(c.user))
    &&& text::opt_text(o.content_text) == Some(body)
    &&& content_is(o.content_yjs, body)
    &&& text::opt_text(o.created_at) == text::opt_text(c.created_at)
    &&& text::opt_text(o.edited_at) == text::opt_text(c.edited_at)
    &&& !o.deleted
    &&& o.deleted_at is None
    &&& text::opt_text(o.parent_id) == opt_det(NS_LINEAR, "comment"@, ref_id(c.parent))
}

pub open spec fn comments_are(
    out: Seq<ExportComment>,
    v: Seq<LinearComment>,
    users: Seq<LinearUser>,
    space: Seq<char>,
) -> bool {
    out.len() == v.len() && forall|i: int|
        0 <= i < v.len() ==> comment_is(#[trigger] out[i], v[i], users, space)
}

/// Whether the comments of the items are those of `v`.
pub open spec fn commented(
    items: Seq<ExportItem>,
    v: Seq<LinearComment>,
    ids: Seq<Seq<char>>,
    users: Seq<LinearUser>,
    space: Seq<char>,
) -> bool {
    forall|k: int|
        0 <= k < items.len() ==> comments_are(
            (#[trigger] items[k]).comments@,
            comments_on(v, ids, k),
            users,
            space,
        )
}

/// The files that the comments on imported issues link, in order.
pub open spec fn comment_uploads(v: Seq<LinearComment>, ids: Seq<Seq<char>>, space: Seq<char>) -> Seq<
    Upload,
>
    decreases v.len(),
{
    if v.len() == 0 {
        seq![]
    } else {
        let rest = comment_uploads(v.drop_last(), ids, space);
        if comment_target(v.last(), ids) is Some {
            rest + uploads(v.last().body@, space)
        } else {
            rest
        }
    }
}

fn find_user_name(users: &Vec<LinearUser>, index: &StrMap<usize>, user: &Option<LinearRef>) -> (r:
    Option<String>)
    requires
        is_index(index@, user_ids(users@)),
    ensures
        text::opt_text(r) == user_name(users@, ref_id(*user)),
{
    match user {
        Some(u) => match position_of(index, Ghost(user_ids(users@)), u.id.as_str()) {
            Some(k) => {
                let name = &users[k].name;
                if name.as_str().is_empty() {
                    None
                } else {
                    Some(name.clone())
                }
            },
            None => None,
        },
        None => None,
    }
}

fn convert_comment(
    c: &LinearComment,
    users: &Vec<LinearUser>,
    user_index: &StrMap<usize>,
    space: &str,
    by: &str,
    now: &str,
    atts: &mut Attachments,
) -> (r: ExportComment)
    requires
        is_index(user_index@, user_ids(users@)),
    ensures
        comment_is(r, *c, users@, space@),
        final(atts)@ == all_noted(old(atts)@, uploads(c.body@, space@), by@, now@),
{
    let author_id = match &c.user {
        Some(u) => det_id(NS_LINEAR, "user", u.id.as_str()),
        None => codec::nil_uuid(),
    };
    let author_name = find_user_name(users, user_index, &c.user);
    let body = rewrite_inline_images(c.body.as_str(), space, atts, by, now);
    let content_yjs = markdown_to_content_yjs(body.as_str());
    ExportComment {
        id: det_id(NS_LINEAR, "comment", c.id.as_str()),
        author_id,
        author_name,
        content_text: Some(body),
        content_yjs,
        created_at: c.created_at.clone(),
        edited_at: c.edited_at.clone(),
        deleted: false,
        deleted_at: None,
        parent_id: opt_id("comment", &c.parent),
    }
}

fn push_comment(item: &mut ExportItem, c: ExportComment)
    ensures
        *final(item) == (ExportItem { comments: final(item).comments, ..*old(item) }),
        final(item).comments@ == old(item).comments@.push(c),
{
    item.comments.push(c);
}

fn attach_comments(
    items: &mut Vec<ExportItem>,
    src: &LinearWorkspace,
    index: &StrMap<usize>,
    Ghost(ids): Ghost<Seq<Seq<char>>>,
    user_index: &StrMap<usize>,
    space: &str,
    by: &str,
    now: &str,
    atts: &mut Attachments,
)
    requires
        is_index(index@, ids),
        is_index(user_index@, user_ids(src.users@)),
        old(items)@.len() == ids.len(),
        forall|k: int| 0 <= k < old(items)@.len() ==> (#[trigger] old(items)@[k]).comments@.len() == 0,
    ensures
        final(items)@.len() == old(items)@.len(),
        forall|k: int|
            0 <= k < final(items)@.len() ==> (#[trigger] final(items)@[k]) == (ExportItem {
                comments: final(items)@[k].comments,
                ..old(items)@[k]
            }),
        commented(final(items)@, src.comments@, ids, src.users@, space@),
        final(atts)@ == all_noted(
            old(atts)@,
            comment_uploads(src.comments@, ids, space@),
            by@,
            now@,
        ),
{
    let ghost was = items@;
    let ghost g = atts@;
    let ghost v = src.comments@;
    let mut i: usize = 0;
    assert(v.take(0) =~= seq![]);
    while i < src.comments.len()
        invariant
            i <= v.len(),
            v == src.comments@,
            is_index(index@, ids),
            is_index(user_index@, user_ids(src.users@)),
            items@.len() == ids.len(),
            items@.len() == was.len(),
            forall|k: int|
                0 <= k < items@.len() ==> (#[trigger] items@[k]) == (ExportItem {
                    comments: items@[k].comments,
                    ..was[k]
                }),
            commented(items@, v.take(i as int), ids, src.users@, space@),
            atts@ == all_noted(g, comment_uploads(v.take(i as int), ids, space@), by@, now@),
        decreases v.len() - i,
    {
        let ghost before = items@;
        let c = &src.comments[i];
        proof {
            assert(v.take(i + 1).drop_last() =~= v.take(i as int));
            assert(v.take(i + 1).last() == *c);
            lemma_noted_append(
                g,
                comment_uploads(v.take(i as int), ids, space@),
                uploads(c.body@, space@),
                by@,
                now@,
            );
        }
        let target = match &c.issue {
            Some(r) => position_of(index, Ghost(ids), r.id.as_str()),
            None => None,
        };
        assert(text::opt_pos(target) == comment_target(*c, ids));
        if let Some(k) = target {
            let comment = convert_comment(c, &src.users, user_index, space, by, now, atts);
            push_comment(&mut items[k], comment);
            assert(items@ =~= before.update(k as int, items@[k as int]));
        }
        proof {
            assert forall|j: int| 0 <= j < items@.len() implies comments_are(
                (#[trigger] items@[j]).comments@,
                comments_on(v.take(i + 1), ids, j),
                src.users@,
                space@,
            ) by {
                assert(comments_are(
                    before[j].comments@,
                    comments_on(v.take(i as int), ids, j),
                    src.users@,
                    space@,
                ));
            }
        }
        i = i + 1;
    }
    assert(v.take(v.len() as int) =~= v);
}

// ---------------------------------------------------------------------------
// Documents
// ---------------------------------------------------------------------------

/// Whether `o` is the export of a document.
pub open spec fn document_is(o: ExportDocument, d: LinearDocument, space: Seq<char>) -> bool {
    let body = rewritten(or_empty(d.content), space);
    &&& o.id@ == det(NS_LINEAR, "document"@, d.id@)
    &&& o.title@ == d.title@
    &&& o.labels@ == Map::<Seq<char>, String>::empty()
    &&& text::opt_text(o.content_text) == (if text::trim_of(body).len() == 0 {
        None
    } else {
        Some(body)
    })
    &&& content_is(o.content_yjs, body)
    &&& !o.archived
    &&& o.owner_user_ids@.len() == 0
    &&& o.owner_team_ids@.len() == 0
    &&& o.parent_item_id is None
    &&& o.parent_milestone_id is None
    &&& o.review_cadence_days is None
    &&& o.last_reviewed_at is None
    &&& !o.is_template
    &&& o.forked_from is None
    &&& text::opt_text(o.created_at) == text::opt_text(d.created_at)
    &&& text::opt_text(o.created_by) == opt_det(NS_LINEAR, "user"@, ref_id(d.creator))
    &&& text::opt_text(o.updated_at) == text::opt_text(d.updated_at)
    &&& o.archived_at is None
}

pub open spec fn documents_are(
    out: Seq<ExportDocument>,
    v: Seq<LinearDocument>,
    space: Seq<char>,
) -> bool {
    out.len() == v.len() && forall|i: int|
        0 <= i < v.len() ==> document_is(#[trigger] out[i], v[i], space)
}

/// The files that the documents link, in order.
pub open spec fn document_uploads(v: Seq<LinearDocument>, space: Seq<char>) -> Seq<Upload>
    decreases v.len(),
{
    if v.len() == 0 {
        seq![]
    } else {
        document_uploads(v.drop_last(), space) + uploads(or_empty(v.last().content), space)
    }
}

fn convert_document(
    d: &LinearDocument,
    space: &str,
    by: &str,
    now: &str,
    atts: &mut Attachments,
) -> (r: ExportDocument)
    ensures
        document_is(r, *d, space@),
        final(atts)@ == all_noted(old(atts)@, uploads(or_empty(d.content), space@), by@, now@),
{
    let content = text_or_empty(&d.content);
    let body = rewrite_inline_images(content.as_str(), space, atts, by, now);
    let content_yjs = markdown_to_content_yjs(body.as_str());
    ExportDocument {
        id: det_id(NS_LINEAR, "document", d.id.as_str()),
        title: d.title.clone(),
        labels: StrMap::new(),
        content_text: if common::is_blank(body.as_str()) {
            None
        } else {
            Some(body)
        },
        content_yjs,
        archived: false,
        owner_user_ids: Vec::new(),
        owner_team_ids: Vec::new(),
        parent_item_id: None,
        parent_milestone_id: None,
        review_cadence_days: None,
        last_reviewed_at: None,
        is_template: false,
        forked_from: None,
        created_at: d.created_at.clone(),
        created_by: opt_id("user", &d.creator),
        updated_at: d.updated_at.clone(),
        archived_at: None,
    }
}

fn convert_documents(
    v: &Vec<LinearDocument>,
    space: &str,
    by: &str,
    now: &str,
    atts: &mut Attachments,
) -> (r: Vec<ExportDocument>)
    ensures
        documents_are(r@, v@, space@),
        final(atts)@ == all_noted(old(atts)@, document_uploads(v@, space@), by@, now@),
{
    let ghost g = atts@;
    let mut out: Vec<ExportDocument> = Vec::new();
    let mut i: usize = 0;
    assert(v@.take(0) =~= seq![]);
    while i < v.len()
        invariant
            i <= v@.len(),
            out@.len() == i,
            forall|k: int| 0 <= k < i ==> document_is(#[trigger] out@[k], v@[k], space@),
            atts@ == all_noted(g, document_uploads(v@.take(i as int), space@), by@, now@),
        decreases v@.len() - i,
    {
        proof {
            assert(v@.take(i + 1).drop_last() =~= v@.take(i as int));
            lemma_noted_append(
                g,
                document_uploads(v@.take(i as int), space@),
                uploads(or_empty(v@[i as int].content), space@),
                by@,
                now@,
            );
        }
        let d = convert_document(&v[i], space, by, now, atts);
        out.push(d);
        i = i + 1;
    }
    assert(v@.take(v@.len() as int) =~= v@);
    out
}

// ---------------------------------------------------------------------------
// The conversion
// ---------------------------------------------------------------------------

/// The id of the converted space.
pub open spec fn space_of(src: LinearWorkspace) -> Seq<char> {
    det(NS_LINEAR, "space"@, src.team.id@)
}

/// All linked files: those of issues, of comments and of documents.
pub open spec fn all_uploads(src: LinearWorkspace) -> Seq<Upload> {
    description_uploads(src.issues@, space_of(src)) + comment_uploads(
        src.comments@,
        issue_ids(src.issues@),
        space_of(src),
    ) + document_uploads(src.documents@, space_of(src))
}

/// The attachments and their URLs.
pub open spec fn gathered(src: LinearWorkspace, now: Seq<char>) -> Gathered {
    all_noted(none_gathered(), all_uploads(src), uploader(src.users@), now)
}

/// Whether the items are those of the issues, with their relations and comments.
pub open spec fn items_are(out: Seq<ExportItem>, src: LinearWorkspace) -> bool {
    let ids = issue_ids(src.issues@);
    &&& out.len() == src.issues@.len()
    &&& forall|k: int|
        0 <= k < out.len() ==> item_fields(#[trigger] out[k], src.issues@[k], src, space_of(src))
    &&& related(out, src.issue_relations@, ids)
    &&& commented(out, src.comments@, ids, src.users@, space_of(src))
}

/// The view by cycle, for a team that has cycles.
pub open spec fn cycle_view(v: Seq<LinearCycle>) -> Option<(Seq<char>, Seq<char>)> {
    if v.len() == 0 {
        None
    } else {
        Some((det(NS_LINEAR, "view"@, "by-cycle"@), "By Cycle"@))
    }
}

/// Whether `e` is the export of a team at the time `now`.
pub open spec fn export_is(e: SpaceExport, src: LinearWorkspace, now: Seq<char>) -> bool {
    &&& e.format@ == "wodo-space-export-v2"@
    &&& e.exported_at@ == now
    &&& common::space_is(
        e.space,
        space_of(src),
        or_if_empty(src.team.name@, src.team.key@),
        src.team.key@,
        now,
    )
    &&& common::labels_view(e.labels) == common::labels_of(
        labels::label_list(src),
        label_id("status"@),
    )
    &&& common::milestones_view(e.milestones) == milestones_of(milestone_nodes(src.projects@))
    &&& e.cycle_config is None
    &&& cycles_are(e.cycles@, src.cycles@)
    &&& e.archive_config is None
    &&& common::views_are(
        e.views,
        det(NS_LINEAR, "view"@, "by-status"@),
        label_id("status"@),
        cycle_view(src.cycles@),
    )
    &&& items_are(e.items@, src)
    &&& documents_are(e.documents@, src.documents@, space_of(src))
    &&& common::attachment_views(e.attachments@) == gathered(src, now).list
    &&& users_are(e.users@, src.users@)
    &&& e.teams@.len() == 0
    &&& e.overview_text is None
    &&& e.overview_yjs is None
}

/// The warnings of a conversion.
pub open spec fn warnings_of(src: LinearWorkspace) -> Seq<Seq<char>> {
    tag_warnings(src.issues@, src) + relation_warning(
        dropped_relations(src.issue_relations@, issue_ids(src.issues@)),
    )
}

/// Whether `c` is the conversion of a team at the time `now`.
pub open spec fn is_conversion(c: LinearConversion, src: LinearWorkspace, now: Seq<char>) -> bool {
    &&& export_is(c.export, src, now)
    &&& text::texts(c.warnings@) == warnings_of(src)
    &&& text_map(c.attachment_urls@) == gathered(src, now).urls
}

fn collect_issue_ids(v: &Vec<LinearIssue>) -> (r: Vec<String>)
    ensures
        text::texts(r@) == issue_ids(v@),
{
    let mut out: Vec<String> = Vec::new();
    let mut i: usize = 0;
    while i < v.len()
        invariant
            i <= v@.len(),
            out@.len() == i,
            forall|k: int| 0 <= k < i ==> (#[trigger] out@[k])@ == v@[k].id@,
        decreases v@.len() - i,
    {
        out.push(v[i].id.clone());
        i = i + 1;
    }
    assert(text::texts(out@) =~= issue_ids(v@));
    out
}

fn collect_user_ids(v: &Vec<LinearUser>) -> (r: Vec<String>)
    ensures
        text::texts(r@) == user_ids(v@),
{
    let mut out: Vec<String> = Vec::new();
    let mut i: usize = 0;
    while i < v.len()
        invariant
            i <= v@.len(),
            out@.len() == i,
            forall|k: int| 0 <= k < i ==> (#[trigger] out@[k])@ == v@[k].id@,
        decreases v@.len() - i,
    {
        out.push(v[i].id.clone());
        i = i + 1;
    }
    assert(text::texts(out@) =~= user_ids(v@));
    out
}

fn warn_dropped(warnings: &mut Vec<String>, n: usize)
    ensures
        text::texts(final(warnings)@) == text::texts(old(warnings)@) + relation_warning(n as int),
{
    let ghost before = text::texts(warnings@);
    if n > 0 {
        let w = text::nat_text(n as u64).concat(
            " issue relation(s) referenced an issue outside the import and were dropped",
        );
        let ghost wv = w@;
        warnings.push(w);
        assert(text::texts(warnings@) =~= before.push(wv));
        assert(before.push(wv) =~= before + seq![wv]);
    } else {
        assert(before + seq![] =~= before);
    }
}

fn build_views(status_label_id: &str, has_cycles: bool) -> (r: crate::template::types::TemplateViews)
    ensures
        common::views_are(
            r,
            det(NS_LINEAR, "view"@, "by-status"@),
            status_label_id@,
            (if has_cycles {
                Some((det(NS_LINEAR, "view"@, "by-cycle"@), "By Cycle"@))
            } else {
                None
            }),
        ),
{
    let by_status = det_id(NS_LINEAR, "view", "by-status");
    if has_cycles {
        let by_cycle = det_id(NS_LINEAR, "view", "by-cycle");
        common::build_boards(
            by_status.as_str(),
            status_label_id,
            Some((by_cycle.as_str(), "By Cycle")),
        )
    } else {
        common::build_boards(by_status.as_str(), status_label_id, None)
    }
}

/// Converts a team at a given time.
pub fn convert_at(src: &LinearWorkspace, now: &str) -> (r: LinearConversion)
    ensures
        is_conversion(r, *src, now@),
{
    let space_id = det_id(NS_LINEAR, "space", src.team.id.as_str());
    let space_name = text_or_if_empty(src.team.name.as_str(), src.team.key.as_str());
    let by = provenance_user(&src.users);
    let space = common::space_metadata(
        space_id.as_str(),
        space_name,
        src.team.key.as_str(),
        now,
    );
    let users = convert_users(&src.users);
    let build = build_labels(src);
    let milestones = convert_milestones(&src.projects);
    let cycles = convert_cycles(&src.cycles);
    let mut warnings: Vec<String> = Vec::new();
    let mut atts = Attachments::new();
    let ghost ids = issue_ids(src.issues@);
    let ghost sp = space_id@;
    assert(text::texts(warnings@) =~= seq![]);
    let mut items = convert_issues(
        src,
        &build,
        space_id.as_str(),
        by.as_str(),
        now,
        &mut atts,
        &mut warnings,
    );
    let ghost base = items@;
    let issue_id_list = collect_issue_ids(&src.issues);
    let index = common::build_index(&issue_id_list);
    let user_id_list = collect_user_ids(&src.users);
    let user_index = common::build_index(&user_id_list);
    let dropped: usize = apply_relations(&mut items, &src.issue_relations, &index, Ghost(ids));
    let ghost linked = items@;
    warn_dropped(&mut warnings, dropped);
    attach_comments(
        &mut items,
        src,
        &index,
        Ghost(ids),
        &user_index,
        space_id.as_str(),
        by.as_str(),
        now,
        &mut atts,
    );
    let documents = convert_documents(
        &src.documents,
        space_id.as_str(),
        by.as_str(),
        now,
        &mut atts,
    );
    proof {
        let g = none_gathered();
        let a = description_uploads(src.issues@, sp);
        let b = comment_uploads(src.comments@, ids, sp);
        let c = document_uploads(src.documents@, sp);
        lemma_noted_append(g, a, b, by@, now@);
        lemma_noted_append(g, a + b, c, by@, now@);
        assert(atts@ == gathered(*src, now@));
        assert forall|k: int| 0 <= k < items@.len() implies item_fields(
            #[trigger] items@[k],
            src.issues@[k],
            *src,
            sp,
        ) by {
            assert(item_fields(base[k], src.issues@[k], *src, sp));
            assert(same_fields(linked[k], base[k]));
        }
        assert forall|k: int| 0 <= k < items@.len() implies {
            &&& text::texts((#[trigger] items@[k]).blocked_by@) == blockers(
                src.issue_relations@,
                ids,
                k,
            )
            &&& text::opt_text(items@[k].duplicate_of) == duplicated(src.issue_relations@, ids, k)
        } by {
            assert(text::texts(linked[k].blocked_by@) == blockers(src.issue_relations@, ids, k));
        }
        assert(text::texts(warnings@) =~= warnings_of(*src));
    }
    let status = det_id(NS_LINEAR, "label", "status");
    let views = build_views(status.as_str(), cycles.len() > 0);
    let export = SpaceExport {
        format: "wodo-space-export-v2".to_owned(),
        exported_at: now.to_owned(),
        space,
        labels: build.labels,
        milestones,
        cycle_config: None,
        cycles,
        archive_config: None,
        views,
        items,
        documents,
        attachments: atts.list,
        users,
        teams: Vec::new(),
        overview_text: None,
        overview_yjs: None,
    };
    LinearConversion { export, warnings, attachment_urls: atts.urls }
}

/// Converts a team: the export, the warnings and the URLs of attachments. The time is an
/// instant.
pub fn convert(src: &LinearWorkspace) -> (r: LinearConversion)
    ensures
        exists|now: Seq<char>, now_ms: int| #[trigger]
            calendar::one_instant(now, now_ms) && is_conversion(r, *src, now),
{
    let (now, now_ms) = calendar::now();
    let r = convert_at(src, now.as_str());
    assert(calendar::one_instant(now@, now_ms as int) && is_conversion(r, *src, now@));
    r
}

/// Converts a team into an export, with warnings about what was dropped.
pub fn linear_to_space_export(src: &LinearWorkspace) -> (r: (SpaceExport, Vec<String>))
    ensures
        exists|now: Seq<char>, now_ms: int| #[trigger]
            calendar::one_instant(now, now_ms) && export_is(r.0, *src, now),
        text::texts(r.1@) == warnings_of(*src),
{
    let c = convert(src);
    let r = (c.export, c.warnings);
    proof {
        let (now, now_ms) = choose|now: Seq<char>, now_ms: int| #[trigger]
            calendar::one_instant(now, now_ms) && is_conversion(c, *src, now);
        assert(calendar::one_instant(now, now_ms) && export_is(r.0, *src, now));
    }
    r
}

} // verus!
