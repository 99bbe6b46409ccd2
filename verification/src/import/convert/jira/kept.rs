//! What a conversion keeps of a Jira project, field by field.

use vstd::prelude::*;

use crate::codec;
use crate::export::types::{ExportAttachment, ExportComment, ExportCycle, SpaceExport};
use crate::import::convert::adf;
use crate::import::convert::common::{
    self, CandidateView, Gathered, LabelView, attachment_view, attachment_views, content_is,
    defines, det, ids_apart, index_of, known, lemma_candidate_defined, lemma_index_of,
};
use crate::import::convert::jira::conversion::{
    self, CommentRef, JiraConversion, blockers, comment_is, comment_ref, comments, cycle_id_of,
    cycle_of, cycle_view, cycle_views, cycles_of, duplicated, export_is, has_cycle, is_conversion,
    issue_comments, issue_ids, item_fields, link_ref, link_target, links, sprints, versions,
};
use crate::import::convert::jira::labels::{
    self, component_candidate, component_candidates, issue_labels, label_id, label_list, label_of,
    name_candidate, points_candidates, priority_candidate, priority_candidates, status_candidate,
    status_candidates, tag_candidates, type_candidates, with_components, with_tags, with_value,
};
use crate::import::convert::jira::laws::lemma_comments_kept;
use crate::import::convert::jira::media::{
    self, all_minted, attachment_id, exported, has_attachment, minted, resolved,
};
use crate::import::convert::jira::users;
use crate::import::convert::jira::{
    JiraAttachment, JiraComment, JiraComponent, JiraIssue, JiraProject, JiraSprint, JiraUser,
    JiraVersion, NS_JIRA,
};
use crate::json::{self, Json};
use crate::text;

verus! {

/// Whether two optional texts are the same.
pub open spec fn same_text(a: Option<String>, b: Option<String>) -> bool {
    match b {
        Some(s) => a is Some && a->0@ == s@,
        None => a is None,
    }
}

/// Whether a text is the id of the user, where there is one with an account.
pub open spec fn is_user(o: Option<String>, u: Option<JiraUser>) -> bool {
    match u {
        Some(x) => if x.account_id@.len() > 0 {
            o is Some && o->0@ == det(NS_JIRA, "user"@, x.account_id@)
        } else {
            o is None
        },
        None => o is None,
    }
}

/// The space is that of the project: its id comes from the project's, and its name, its
/// slug and the prefix of its short ids from the project's name and key.
pub proof fn lemma_space_kept(e: SpaceExport, p: JiraProject, v: Seq<JiraIssue>, now: Seq<char>)
    requires
        export_is(e, p, v, now),
    ensures
        e.format@ == "wodo-space-export-v2"@,
        e.exported_at@ == now,
        e.space.id@ == det(NS_JIRA, "space"@, p.id@),
        p.name@.len() > 0 ==> e.space.name@ == p.name@,
        p.name@.len() == 0 ==> e.space.name@ == p.key@,
        e.space.slug@ == common::slug_of(e.space.name@),
        e.space.region@ == "eu"@,
        e.space.short_id_prefix is Some,
        e.space.short_id_prefix->0@ == p.key@,
        e.space.short_id_visible,
        e.space.created_at@ == now,
        e.documents@.len() == 0,
        e.teams@.len() == 0,
        e.cycle_config is None,
        e.archive_config is None,
        e.overview_text is None,
        e.overview_yjs is None,
{
}

/// Every issue becomes the item at its position, with its own title, due date and times,
/// assigned to its assignee, created by its reporter or else by its creator, and in the
/// milestone of its first version.
pub proof fn lemma_issue_kept(
    e: SpaceExport,
    p: JiraProject,
    v: Seq<JiraIssue>,
    now: Seq<char>,
    k: int,
)
    requires
        export_is(e, p, v, now),
        0 <= k < v.len(),
    ensures
        e.items@.len() == v.len(),
        ({
            let (o, f) = (e.items@[k], v[k].fields);
            &&& o.id@ == det(NS_JIRA, "item"@, v[k].id@)
            &&& o.title@ == f.summary@
            &&& same_text(o.due_date, f.duedate)
            &&& o.start_date is None
            &&& same_text(o.created_at, f.created)
            &&& same_text(o.updated_at, f.updated)
            &&& !o.archived && !o.deep_archived && o.archived_at is None
            &&& f.reporter is Some ==> is_user(o.created_by, f.reporter)
            &&& f.reporter is None ==> is_user(o.created_by, f.creator)
            &&& (match f.assignee {
                Some(u) => if u.account_id@.len() > 0 {
                    o.assignee_user_ids@.len() == 1 && o.assignee_user_ids@[0]@ == det(
                        NS_JIRA,
                        "user"@,
                        u.account_id@,
                    )
                } else {
                    o.assignee_user_ids@.len() == 0
                },
                None => o.assignee_user_ids@.len() == 0,
            })
            &&& o.assignee_team_ids@.len() == 0
            &&& f.fix_versions@.len() == 0 ==> o.milestone_id is None
            &&& f.fix_versions@.len() > 0 ==> o.milestone_id is Some && o.milestone_id->0@ == det(
                NS_JIRA,
                "milestone"@,
                f.fix_versions@[0].id@,
            )
            &&& o.completion_prompt is None
            &&& o.completion_note_text is None
            &&& o.completion_note_yjs is None
        }),
{
    let o = e.items@[k];
    assert(item_fields(o, v[k], v, conversion::space_of(p)));
    let ids = text::texts(o.assignee_user_ids@);
    assert(ids.len() == o.assignee_user_ids@.len());
    if ids.len() > 0 {
        assert(ids[0] == o.assignee_user_ids@[0]@);
    }
}

/// An issue whose key ends in a dash and a number becomes an item with that short id.
pub proof fn lemma_short_id_kept(
    e: SpaceExport,
    p: JiraProject,
    v: Seq<JiraIssue>,
    now: Seq<char>,
    k: int,
    head: Seq<char>,
    n: nat,
)
    requires
        export_is(e, p, v, now),
        0 <= k < v.len(),
        n <= i64::MAX,
        v[k].key@ == head + "-"@ + text::decimal(n),
    ensures
        e.items@[k].short_id is Some,
        e.items@[k].short_id->0 == n,
{
    assert(item_fields(e.items@[k], v[k], v, conversion::space_of(p)));
    text::lemma_numbered(head, n);
}

/// An issue that names its parent by id becomes an item under the item of that issue. One
/// that names it by key alone, or names an epic, stands under the last imported issue with
/// that key.
pub proof fn lemma_parent_kept(
    e: SpaceExport,
    p: JiraProject,
    v: Seq<JiraIssue>,
    now: Seq<char>,
    k: int,
    j: int,
)
    requires
        export_is(e, p, v, now),
        0 <= k < v.len(),
        0 <= j < v.len(),
        forall|i: int| j < i < v.len() ==> (#[trigger] v[i]).key@ != v[j].key@,
    ensures
        ({
            let (o, f) = (e.items@[k], v[k].fields);
            &&& f.parent is Some && f.parent->0.id@.len() > 0 ==> o.parent_id is Some
                && o.parent_id->0@ == det(NS_JIRA, "item"@, f.parent->0.id@)
            &&& f.parent is Some && f.parent->0.id@.len() == 0 && f.parent->0.key@ == v[j].key@
                ==> o.parent_id is Some && o.parent_id->0@ == det(NS_JIRA, "item"@, v[j].id@)
            &&& f.parent is None && f.epic_link is Some && f.epic_link->0@ == v[j].key@
                ==> o.parent_id is Some && o.parent_id->0@ == det(NS_JIRA, "item"@, v[j].id@)
            &&& f.parent is None && f.epic_link is None ==> o.parent_id is None
        }),
{
    assert(item_fields(e.items@[k], v[k], v, conversion::space_of(p)));
    let keys = conversion::issue_keys(v);
    assert(keys[j] == v[j].key@);
    assert forall|i: int| j < i < keys.len() implies #[trigger] keys[i] != keys[j] by {
        assert(v[i].key@ != v[j].key@);
    }
    common::lemma_last_index(keys, j);
}

/// The description of an issue becomes the description of its item, as text and as rich
/// text: the Markdown of the document, with its images resolved; a blank one is dropped.
pub proof fn lemma_description_kept(
    e: SpaceExport,
    p: JiraProject,
    v: Seq<JiraIssue>,
    now: Seq<char>,
    k: int,
)
    requires
        export_is(e, p, v, now),
        0 <= k < v.len(),
    ensures
        ({
            let (o, f) = (e.items@[k], v[k].fields);
            match f.description {
                Some(n) => {
                    let m = adf::markdown_of(n);
                    let body = resolved(m, f.attachment@, e.space.id@);
                    &&& !(n is Null) && text::trim_of(m).len() > 0 ==> o.description_text is Some
                        && o.description_text->0@ == body && content_is(o.description_yjs, body)
                    &&& n is Null || text::trim_of(m).len() == 0 ==> o.description_text is None
                        && o.description_yjs is None
                },
                None => o.description_text is None && o.description_yjs is None,
            }
        }),
{
    assert(item_fields(e.items@[k], v[k], v, conversion::space_of(p)));
}

// ---------------------------------------------------------------------------
// Cycles and milestones
// ---------------------------------------------------------------------------

/// Whether the issue at `a` was in a sprint that it lists at `b`.
pub open spec fn lists_sprint(v: Seq<JiraIssue>, a: int, b: int) -> bool {
    0 <= a < v.len() && v[a].fields.sprints is Some && 0 <= b < v[a].fields.sprints->0@.len()
}

/// The sprint that the issue at `a` lists at `b`.
pub open spec fn sprint_at(v: Seq<JiraIssue>, a: int, b: int) -> JiraSprint {
    v[a].fields.sprints->0@[b]
}

/// Whether no sprint that is listed before has the id of a cycle that this one has.
pub open spec fn is_first_sprint(v: Seq<JiraIssue>, a: int, b: int) -> bool {
    &&& lists_sprint(v, a, b)
    &&& forall|x: int, y: int|
        #![trigger sprint_at(v, x, y)]
        lists_sprint(v, x, y) && (x < a || x == a && y < b) ==> cycle_id_of(sprint_at(v, x, y).id)
            != cycle_id_of(sprint_at(v, a, b).id)
}

/// Whether a cycle is the sprint: it has its name, or one from its number where it has
/// none, and lasts from its start to its end.
pub open spec fn is_sprint(c: ExportCycle, s: JiraSprint) -> bool {
    &&& c.id@ == det(NS_JIRA, "cycle"@, text::int_text_of(s.id as int))
    &&& s.name@.len() > 0 ==> c.name@ == s.name@
    &&& s.name@.len() == 0 ==> c.name@ == "Sprint "@ + text::int_text_of(s.id as int)
    &&& c.start_date@ == (match s.start_date {
        Some(d) => d@,
        None => ""@,
    })
    &&& c.end_date@ == (match s.end_date {
        Some(d) => d@,
        None => ""@,
    })
    &&& !c.archived
}

/// Every sprint in the list of all is one that an issue lists.
proof fn lemma_sprint_from(v: Seq<JiraIssue>, j: int) -> (r: (int, int))
    requires
        0 <= j < sprints(v).len(),
    ensures
        lists_sprint(v, r.0, r.1),
        sprints(v)[j] == sprint_at(v, r.0, r.1),
    decreases v.len(),
{
    let before = sprints(v.drop_last());
    if v.len() > 0 && j < before.len() {
        let r = lemma_sprint_from(v.drop_last(), j);
        assert(v.drop_last()[r.0] == v[r.0]);
        r
    } else {
        (v.len() - 1, j - before.len())
    }
}

/// Where a sprint stands in the list of all, and what stands before it.
proof fn lemma_sprint_position(v: Seq<JiraIssue>, a: int, b: int) -> (k: int)
    requires
        lists_sprint(v, a, b),
    ensures
        0 <= k < sprints(v).len(),
        sprints(v)[k] == sprint_at(v, a, b),
        forall|j: int|
            0 <= j < k ==> exists|x: int, y: int|
                #![trigger sprint_at(v, x, y)]
                lists_sprint(v, x, y) && (x < a || x == a && y < b) && #[trigger] sprints(v)[j]
                    == sprint_at(v, x, y),
    decreases v.len(),
{
    let w = v.drop_last();
    let before = sprints(w);
    if a < v.len() - 1 {
        assert(w[a] == v[a]);
        assert(lists_sprint(w, a, b));
        let k = lemma_sprint_position(w, a, b);
        assert forall|j: int| 0 <= j < k implies exists|x: int, y: int|
            #![trigger sprint_at(v, x, y)]
            lists_sprint(v, x, y) && (x < a || x == a && y < b) && #[trigger] sprints(v)[j]
                == sprint_at(v, x, y) by {
            assert(before[j] == sprints(v)[j]);
            let (x, y) = choose|x: int, y: int|
                #![trigger sprint_at(w, x, y)]
                lists_sprint(w, x, y) && (x < a || x == a && y < b) && before[j] == sprint_at(
                    w,
                    x,
                    y,
                );
            assert(w[x] == v[x]);
            assert(sprint_at(w, x, y) == sprint_at(v, x, y));
        }
        k
    } else {
        let k = before.len() + b;
        assert forall|j: int| 0 <= j < k implies exists|x: int, y: int|
            #![trigger sprint_at(v, x, y)]
            lists_sprint(v, x, y) && (x < a || x == a && y < b) && #[trigger] sprints(v)[j]
                == sprint_at(v, x, y) by {
            if j < before.len() {
                let r = lemma_sprint_from(w, j);
                assert(w[r.0] == v[r.0]);
                assert(sprint_at(w, r.0, r.1) == sprint_at(v, r.0, r.1));
            } else {
                assert(sprints(v)[j] == sprint_at(v, a, j - before.len()));
            }
        }
        k
    }
}

proof fn lemma_cycle_listed(v: Seq<JiraSprint>, k: int)
    requires
        0 <= k < v.len(),
        forall|j: int| 0 <= j < k ==> cycle_id_of((#[trigger] v[j]).id) != cycle_id_of(v[k].id),
    ensures
        cycles_of(v).contains(cycle_of(v[k])),
    decreases v.len(),
{
    let w = v.drop_last();
    let rest = cycles_of(w);
    if k < v.len() - 1 {
        assert forall|j: int| 0 <= j < k implies cycle_id_of((#[trigger] w[j]).id) != cycle_id_of(
            w[k].id,
        ) by {
            assert(w[j] == v[j]);
        }
        lemma_cycle_listed(w, k);
        let i = choose|i: int| 0 <= i < rest.len() && rest[i] == cycle_of(v[k]);
        assert(cycles_of(v)[i] == rest[i]);
    } else {
        if has_cycle(rest, cycle_id_of(v[k].id)) {
            let i = choose|i: int|
                0 <= i < rest.len() && (#[trigger] rest[i]).id == cycle_id_of(v[k].id);
            let j = lemma_cycle_from(w, i);
            assert(w[j] == v[j]);
            assert(cycle_id_of(v[j].id) != cycle_id_of(v[k].id));
        }
        assert(cycles_of(v)[rest.len() as int] == cycle_of(v[k]));
    }
}

proof fn lemma_cycle_from(v: Seq<JiraSprint>, i: int) -> (j: int)
    requires
        0 <= i < cycles_of(v).len(),
    ensures
        0 <= j < v.len(),
        cycles_of(v)[i] == cycle_of(v[j]),
    decreases v.len(),
{
    let rest = cycles_of(v.drop_last());
    if v.len() > 0 && i < rest.len() {
        let j = lemma_cycle_from(v.drop_last(), i);
        assert(v.drop_last()[j] == v[j]);
        j
    } else {
        v.len() - 1
    }
}

/// Every sprint that is the first with its id becomes a cycle with its dates, and every
/// cycle is such a sprint of an issue.
pub proof fn lemma_cycle_kept(
    e: SpaceExport,
    p: JiraProject,
    v: Seq<JiraIssue>,
    now: Seq<char>,
    a: int,
    b: int,
)
    requires
        export_is(e, p, v, now),
        is_first_sprint(v, a, b),
    ensures
        exists|c: int|
            0 <= c < e.cycles@.len() && is_sprint(#[trigger] e.cycles@[c], sprint_at(v, a, b)),
        forall|c: int|
            0 <= c < e.cycles@.len() ==> exists|x: int, y: int|
                #![trigger sprint_at(v, x, y)]
                lists_sprint(v, x, y) && is_sprint(#[trigger] e.cycles@[c], sprint_at(v, x, y)),
{
    let all = sprints(v);
    let k = lemma_sprint_position(v, a, b);
    assert forall|j: int| 0 <= j < k implies cycle_id_of((#[trigger] all[j]).id) != cycle_id_of(
        all[k].id,
    ) by {
        let (x, y) = choose|x: int, y: int|
            #![trigger sprint_at(v, x, y)]
            lists_sprint(v, x, y) && (x < a || x == a && y < b) && all[j] == sprint_at(v, x, y);
        assert(cycle_id_of(sprint_at(v, x, y).id) != cycle_id_of(sprint_at(v, a, b).id));
    }
    lemma_cycle_listed(all, k);
    let views = cycle_views(e.cycles@);
    let c = choose|c: int| 0 <= c < views.len() && views[c] == cycle_of(all[k]);
    assert(views[c] == cycle_view(e.cycles@[c]));
    assert(is_sprint(e.cycles@[c], sprint_at(v, a, b)));
    assert forall|c: int| 0 <= c < e.cycles@.len() implies exists|x: int, y: int|
        #![trigger sprint_at(v, x, y)]
        lists_sprint(v, x, y) && is_sprint(#[trigger] e.cycles@[c], sprint_at(v, x, y)) by {
        assert(views[c] == cycle_view(e.cycles@[c]));
        let j = lemma_cycle_from(all, c);
        let (x, y) = lemma_sprint_from(v, j);
        assert(is_sprint(e.cycles@[c], sprint_at(v, x, y)));
    }
}

/// Whether the sprint at `b` is the last that is active, or the last of all where none is.
pub open spec fn is_current(list: Seq<JiraSprint>, b: int) -> bool {
    &&& 0 <= b < list.len()
    &&& forall|j: int|
        b < j < list.len() ==> common::lowered((#[trigger] list[j]).state@) != "active"@
    &&& common::lowered(list[b].state@) != "active"@ ==> b == list.len() - 1 && forall|j: int|
        0 <= j < list.len() ==> common::lowered((#[trigger] list[j]).state@) != "active"@
}

/// An issue belongs to the cycle of the last of its sprints that is active, or of the last
/// where none is; without sprints it belongs to none.
pub proof fn lemma_issue_cycle(
    e: SpaceExport,
    p: JiraProject,
    v: Seq<JiraIssue>,
    now: Seq<char>,
    k: int,
)
    requires
        export_is(e, p, v, now),
        0 <= k < v.len(),
    ensures
        v[k].fields.sprints is None || v[k].fields.sprints->0@.len() == 0
            ==> e.items@[k].cycle_id is None,
        v[k].fields.sprints is Some && v[k].fields.sprints->0@.len() > 0
            ==> e.items@[k].cycle_id is Some && exists|b: int| #[trigger]
            is_current(v[k].fields.sprints->0@, b) && e.items@[k].cycle_id->0@ == det(
                NS_JIRA,
                "cycle"@,
                text::int_text_of(v[k].fields.sprints->0@[b].id as int),
            ),
{
    assert(item_fields(e.items@[k], v[k], v, conversion::space_of(p)));
    if v[k].fields.sprints is Some && v[k].fields.sprints->0@.len() > 0 {
        let list = v[k].fields.sprints->0@;
        let b = lemma_current(list);
        assert(e.items@[k].cycle_id->0@ == cycle_id_of(list[b].id));
    }
}

proof fn lemma_current(v: Seq<JiraSprint>) -> (b: int)
    requires
        v.len() > 0,
    ensures
        is_current(v, b),
        conversion::current_sprint(v) == Some(v[b].id),
    decreases v.len(),
{
    let w = v.drop_last();
    if conversion::is_active(v.last()) || v.len() == 1 {
        v.len() - 1
    } else {
        let b = lemma_current(w);
        assert forall|j: int| 0 <= j < w.len() implies w[j] == #[trigger] v[j] by {}
        if conversion::is_active(w[b]) {
            lemma_active(w, b);
            b
        } else {
            lemma_none_active(v);
            v.len() - 1
        }
    }
}

proof fn lemma_active(v: Seq<JiraSprint>, b: int)
    requires
        0 <= b < v.len(),
        conversion::is_active(v[b]),
    ensures
        conversion::last_active(v) is Some,
    decreases v.len(),
{
    if b < v.len() - 1 {
        assert(v.drop_last()[b] == v[b]);
        lemma_active(v.drop_last(), b);
    }
}

proof fn lemma_none_active(v: Seq<JiraSprint>)
    requires
        forall|j: int| 0 <= j < v.len() ==> !conversion::is_active(#[trigger] v[j]),
    ensures
        conversion::last_active(v) is None,
    decreases v.len(),
{
    if v.len() > 0 {
        assert(!conversion::is_active(v[v.len() - 1]));
        assert forall|j: int| 0 <= j < v.drop_last().len() implies !conversion::is_active(
            #[trigger] v.drop_last()[j],
        ) by {
            assert(v.drop_last()[j] == v[j]);
        }
        lemma_none_active(v.drop_last());
    }
}

// ---------------------------------------------------------------------------
// Milestones
// ---------------------------------------------------------------------------

/// Whether the issue at `a` lists a version at `b`.
pub open spec fn lists_version(v: Seq<JiraIssue>, a: int, b: int) -> bool {
    0 <= a < v.len() && 0 <= b < v[a].fields.fix_versions@.len()
}

/// The version that the issue at `a` lists at `b`.
pub open spec fn version_at(v: Seq<JiraIssue>, a: int, b: int) -> JiraVersion {
    v[a].fields.fix_versions@[b]
}

/// The id of the milestone for a version.
pub open spec fn milestone_id(m: JiraVersion) -> Seq<char> {
    det(NS_JIRA, "milestone"@, m.id@)
}

/// Whether no version that is listed before has the id of a milestone that this one has.
pub open spec fn is_first_version(v: Seq<JiraIssue>, a: int, b: int) -> bool {
    &&& lists_version(v, a, b)
    &&& forall|x: int, y: int|
        #![trigger version_at(v, x, y)]
        lists_version(v, x, y) && (x < a || x == a && y < b) ==> milestone_id(version_at(v, x, y))
            != milestone_id(version_at(v, a, b))
}

proof fn lemma_version_from(v: Seq<JiraIssue>, j: int) -> (r: (int, int))
    requires
        0 <= j < versions(v).len(),
    ensures
        lists_version(v, r.0, r.1),
        versions(v)[j] == version_at(v, r.0, r.1),
    decreases v.len(),
{
    let before = versions(v.drop_last());
    if v.len() > 0 && j < before.len() {
        let r = lemma_version_from(v.drop_last(), j);
        assert(v.drop_last()[r.0] == v[r.0]);
        r
    } else {
        (v.len() - 1, j - before.len())
    }
}

proof fn lemma_version_position(v: Seq<JiraIssue>, a: int, b: int) -> (k: int)
    requires
        lists_version(v, a, b),
    ensures
        0 <= k < versions(v).len(),
        versions(v)[k] == version_at(v, a, b),
        forall|j: int|
            0 <= j < k ==> exists|x: int, y: int|
                #![trigger version_at(v, x, y)]
                lists_version(v, x, y) && (x < a || x == a && y < b) && #[trigger] versions(v)[j]
                    == version_at(v, x, y),
    decreases v.len(),
{
    let w = v.drop_last();
    let before = versions(w);
    if a < v.len() - 1 {
        assert(w[a] == v[a]);
        assert(lists_version(w, a, b));
        let k = lemma_version_position(w, a, b);
        assert forall|j: int| 0 <= j < k implies exists|x: int, y: int|
            #![trigger version_at(v, x, y)]
            lists_version(v, x, y) && (x < a || x == a && y < b) && #[trigger] versions(v)[j]
                == version_at(v, x, y) by {
            assert(before[j] == versions(v)[j]);
            let (x, y) = choose|x: int, y: int|
                #![trigger version_at(w, x, y)]
                lists_version(w, x, y) && (x < a || x == a && y < b) && before[j] == version_at(
                    w,
                    x,
                    y,
                );
            assert(w[x] == v[x]);
            assert(version_at(w, x, y) == version_at(v, x, y));
        }
        k
    } else {
        let k = before.len() + b;
        assert forall|j: int| 0 <= j < k implies exists|x: int, y: int|
            #![trigger version_at(v, x, y)]
            lists_version(v, x, y) && (x < a || x == a && y < b) && #[trigger] versions(v)[j]
                == version_at(v, x, y) by {
            if j < before.len() {
                let r = lemma_version_from(w, j);
                assert(w[r.0] == v[r.0]);
                assert(version_at(w, r.0, r.1) == version_at(v, r.0, r.1));
            } else {
                assert(versions(v)[j] == version_at(v, a, j - before.len()));
            }
        }
        k
    }
}

proof fn lemma_milestone_defined(v: Seq<JiraVersion>, k: int)
    requires
        0 <= k < v.len(),
        forall|j: int| 0 <= j < k ==> milestone_id(#[trigger] v[j]) != milestone_id(v[k]),
    ensures
        conversion::milestones_of(v).definitions.contains_key(milestone_id(v[k])),
        conversion::milestones_of(v).definitions[milestone_id(v[k])] == conversion::milestone_of(
            v[k],
        ),
        conversion::milestones_of(v).order.contains(milestone_id(v[k])),
    decreases v.len(),
{
    let w = v.drop_last();
    let rest = conversion::milestones_of(w);
    let all = conversion::milestones_of(v);
    if k < v.len() - 1 {
        assert forall|j: int| 0 <= j < k implies milestone_id(#[trigger] w[j]) != milestone_id(
            w[k],
        ) by {
            assert(w[j] == v[j]);
        }
        lemma_milestone_defined(w, k);
        let i = choose|i: int| 0 <= i < rest.order.len() && rest.order[i] == milestone_id(v[k]);
        assert(all.order[i] == rest.order[i]);
    } else {
        lemma_milestone_from(w);
        if rest.definitions.contains_key(milestone_id(v[k])) {
            let j = choose|j: int|
                0 <= j < w.len() && milestone_id(#[trigger] w[j]) == milestone_id(v[k]);
            assert(w[j] == v[j]);
            assert(milestone_id(v[j]) != milestone_id(v[k]));
        }
        assert(all.order[rest.order.len() as int] == milestone_id(v[k]));
    }
}

proof fn lemma_milestone_from(v: Seq<JiraVersion>)
    ensures
        forall|id: Seq<char>| #[trigger]
            conversion::milestones_of(v).definitions.contains_key(id) ==> exists|j: int|
                0 <= j < v.len() && milestone_id(#[trigger] v[j]) == id,
    decreases v.len(),
{
    if v.len() > 0 {
        let w = v.drop_last();
        lemma_milestone_from(w);
        assert forall|id: Seq<char>| #[trigger]
            conversion::milestones_of(v).definitions.contains_key(id) implies exists|j: int|
            0 <= j < v.len() && milestone_id(#[trigger] v[j]) == id by {
            if conversion::milestones_of(w).definitions.contains_key(id) {
                let j = choose|j: int| 0 <= j < w.len() && milestone_id(#[trigger] w[j]) == id;
                assert(v[j] == w[j]);
            } else {
                assert(milestone_id(v[v.len() - 1]) == id);
            }
        }
    }
}

/// Every version that is the first with its id becomes a milestone, listed and defined with
/// its name, its description and its release date as the deadline.
pub proof fn lemma_milestone_kept(
    e: SpaceExport,
    p: JiraProject,
    v: Seq<JiraIssue>,
    now: Seq<char>,
    a: int,
    b: int,
)
    requires
        export_is(e, p, v, now),
        is_first_version(v, a, b),
    ensures
        ({
            let m = version_at(v, a, b);
            let id = det(NS_JIRA, "milestone"@, m.id@);
            &&& text::texts(e.milestones.order@).contains(id)
            &&& e.milestones.definitions@.contains_key(id)
            &&& e.milestones.definitions@[id].id@ == id
            &&& e.milestones.definitions@[id].name@ == m.name@
            &&& same_text(e.milestones.definitions@[id].description, m.description)
            &&& same_text(e.milestones.definitions@[id].deadline, m.release_date)
            &&& !e.milestones.definitions@[id].deprecated
        }),
{
    let all = versions(v);
    let k = lemma_version_position(v, a, b);
    assert forall|j: int| 0 <= j < k implies milestone_id(#[trigger] all[j]) != milestone_id(
        all[k],
    ) by {
        let (x, y) = choose|x: int, y: int|
            #![trigger version_at(v, x, y)]
            lists_version(v, x, y) && (x < a || x == a && y < b) && all[j] == version_at(v, x, y);
        assert(milestone_id(version_at(v, x, y)) != milestone_id(version_at(v, a, b)));
    }
    lemma_milestone_defined(all, k);
    let id = milestone_id(all[k]);
    let views = common::milestones_view(e.milestones);
    assert(views.definitions.contains_key(id));
    assert(views.definitions[id] == common::milestone_view(e.milestones.definitions@[id]));
}

// ---------------------------------------------------------------------------
// Labels
// ---------------------------------------------------------------------------

spec fn status_label(v: Seq<JiraIssue>) -> Seq<LabelView> {
    label_of("status"@, "status_value"@, "Status"@, "circle"@, status_candidates(v))
}

spec fn priority_label(v: Seq<JiraIssue>) -> Seq<LabelView> {
    label_of("priority"@, "priority_value"@, "Priority"@, "flag"@, priority_candidates(v))
}

spec fn type_label(v: Seq<JiraIssue>) -> Seq<LabelView> {
    label_of("type"@, "type_value"@, "Type"@, "tag"@, type_candidates(v))
}

spec fn component_label(v: Seq<JiraIssue>) -> Seq<LabelView> {
    label_of("component"@, "component_value"@, "Component"@, "folder"@, component_candidates(v))
}

spec fn tag_label(v: Seq<JiraIssue>) -> Seq<LabelView> {
    label_of("tags"@, "tag_value"@, "Tags"@, "tag"@, tag_candidates(v))
}

spec fn points_label(v: Seq<JiraIssue>) -> Seq<LabelView> {
    label_of("estimate"@, "estimate_value"@, "Estimate"@, "gauge"@, points_candidates(v))
}

/// Where the labels stand in the list of all of them.
proof fn lemma_positions(v: Seq<JiraIssue>)
    ensures
        ({
            let l = label_list(v);
            let (a, b, c, d, e, f) = (
                status_label(v),
                priority_label(v),
                type_label(v),
                component_label(v),
                tag_label(v),
                points_label(v),
            );
            &&& a.len() <= 1 && b.len() <= 1 && c.len() <= 1
            &&& d.len() <= 1 && e.len() <= 1 && f.len() <= 1
            &&& l.len() == a.len() + b.len() + c.len() + d.len() + e.len() + f.len()
            &&& a.len() > 0 ==> a == seq![l[0]]
            &&& b.len() > 0 ==> b == seq![l[a.len() as int]]
            &&& c.len() > 0 ==> c == seq![l[(a.len() + b.len()) as int]]
            &&& d.len() > 0 ==> d == seq![l[(a.len() + b.len() + c.len()) as int]]
            &&& e.len() > 0 ==> e == seq![l[(a.len() + b.len() + c.len() + d.len()) as int]]
            &&& f.len() > 0 ==> f == seq![
                l[(a.len() + b.len() + c.len() + d.len() + e.len()) as int],
            ]
        }),
{
    let l = label_list(v);
    let (a, b, c, d, e, f) = (
        status_label(v),
        priority_label(v),
        type_label(v),
        component_label(v),
        tag_label(v),
        points_label(v),
    );
    assert(l == a + b + c + d + e + f);
    if a.len() > 0 {
        assert(a =~= seq![l[0]]);
    }
    if b.len() > 0 {
        assert(b =~= seq![l[a.len() as int]]);
    }
    if c.len() > 0 {
        assert(c =~= seq![l[(a.len() + b.len()) as int]]);
    }
    if d.len() > 0 {
        assert(d =~= seq![l[(a.len() + b.len() + c.len()) as int]]);
    }
    if e.len() > 0 {
        assert(e =~= seq![l[(a.len() + b.len() + c.len() + d.len()) as int]]);
    }
    if f.len() > 0 {
        assert(f =~= seq![l[(a.len() + b.len() + c.len() + d.len() + e.len()) as int]]);
    }
}

/// The labels that there are have different ids.
#[verifier::spinoff_prover]
#[verifier::rlimit(50)]
proof fn lemma_labels_apart(v: Seq<JiraIssue>)
    requires
        common::label_ids(label_list(v)).no_duplicates(),
    ensures
        ({
            let (a, b, c, d, e, f) = (
                status_candidates(v).len() > 0,
                priority_candidates(v).len() > 0,
                type_candidates(v).len() > 0,
                component_candidates(v).len() > 0,
                tag_candidates(v).len() > 0,
                points_candidates(v).len() > 0,
            );
            let (s, p, t, m, g, x) = (
                label_id("status"@),
                label_id("priority"@),
                label_id("type"@),
                label_id("component"@),
                label_id("tags"@),
                label_id("estimate"@),
            );
            &&& a && b ==> s != p
            &&& a && c ==> s != t
            &&& a && d ==> s != m
            &&& a && e ==> s != g
            &&& a && f ==> s != x
            &&& b && c ==> p != t
            &&& b && d ==> p != m
            &&& b && e ==> p != g
            &&& b && f ==> p != x
            &&& c && d ==> t != m
            &&& c && e ==> t != g
            &&& c && f ==> t != x
            &&& d && e ==> m != g
            &&& d && f ==> m != x
            &&& e && f ==> g != x
        }),
{
    lemma_positions(v);
    let l = label_list(v);
    let ids = common::label_ids(l);
    let (a, b, c, d, e, f) = (
        status_label(v),
        priority_label(v),
        type_label(v),
        component_label(v),
        tag_label(v),
        points_label(v),
    );
    if a.len() > 0 {
        assert(a[0].id == label_id("status"@));
        assert(ids[0] == label_id("status"@));
    }
    if b.len() > 0 {
        assert(b[0].id == label_id("priority"@));
        assert(ids[a.len() as int] == label_id("priority"@));
    }
    if c.len() > 0 {
        assert(c[0].id == label_id("type"@));
        assert(ids[(a.len() + b.len()) as int] == label_id("type"@));
    }
    if d.len() > 0 {
        assert(d[0].id == label_id("component"@));
        assert(ids[(a.len() + b.len() + c.len()) as int] == label_id("component"@));
    }
    if e.len() > 0 {
        assert(e[0].id == label_id("tags"@));
        assert(ids[(a.len() + b.len() + c.len() + d.len()) as int] == label_id("tags"@));
    }
    if f.len() > 0 {
        assert(f[0].id == label_id("estimate"@));
        assert(ids[(a.len() + b.len() + c.len() + d.len() + e.len()) as int] == label_id(
            "estimate"@,
        ));
    }
}

/// What an item has of the label with the given id.
pub open spec fn value_of(e: SpaceExport, k: int, label: Seq<char>) -> Option<Seq<char>> {
    if e.items@[k].labels@.contains_key(label) {
        Some(e.items@[k].labels@[label]@)
    } else {
        None
    }
}

proof fn lemma_frame(
    m: Map<Seq<char>, Seq<char>>,
    key: Seq<char>,
    kind: Seq<char>,
    v: Seq<CandidateView>,
    id: Option<Seq<char>>,
    x: Seq<char>,
)
    requires
        v.len() > 0 ==> label_id(key) != x,
        m.contains_key(x),
    ensures
        with_value(m, key, kind, v, id).contains_key(x),
        with_value(m, key, kind, v, id)[x] == m[x],
{
}

/// The labels of an item hold the values of the issue that are offered.
proof fn lemma_values(e: SpaceExport, p: JiraProject, v: Seq<JiraIssue>, now: Seq<char>, k: int)
    requires
        export_is(e, p, v, now),
        ids_apart(e.labels),
        0 <= k < v.len(),
    ensures
        common::label_ids(label_list(v)).no_duplicates(),
        ({
            let f = v[k].fields;
            &&& known(status_candidates(v), f.status.id@) ==> value_of(e, k, label_id("status"@))
                == Some(det(NS_JIRA, "status_value"@, f.status.id@))
            &&& f.priority is Some && known(priority_candidates(v), f.priority->0.id@)
                ==> value_of(e, k, label_id("priority"@)) == Some(
                det(NS_JIRA, "priority_value"@, f.priority->0.id@),
            )
            &&& known(type_candidates(v), f.issuetype.name@) ==> value_of(e, k, label_id("type"@))
                == Some(det(NS_JIRA, "type_value"@, f.issuetype.name@))
            &&& f.components@.len() > 0 && known(component_candidates(v), f.components@[0].id@)
                ==> value_of(e, k, label_id("component"@)) == Some(
                det(NS_JIRA, "component_value"@, f.components@[0].id@),
            )
            &&& f.labels@.len() > 0 && known(tag_candidates(v), f.labels@[0]@) ==> value_of(
                e,
                k,
                label_id("tags"@),
            ) == Some(det(NS_JIRA, "tag_value"@, f.labels@[0]@))
            &&& f.story_points is Some && known(points_candidates(v), f.story_points->0.text@)
                ==> value_of(e, k, label_id("estimate"@)) == Some(
                det(NS_JIRA, "estimate_value"@, f.story_points->0.text@),
            )
        }),
{
    assert(common::labels_view(e.labels).order == common::label_ids(label_list(v)));
    lemma_labels_apart(v);
    assert(item_fields(e.items@[k], v[k], v, conversion::space_of(p)));
    let f = v[k].fields;
    let m = issue_labels(f, v);
    let own = common::text_map(e.items@[k].labels@);
    assert(own == m);
    assert forall|l: Seq<char>| #[trigger] m.contains_key(l) implies value_of(e, k, l) == Some(
        m[l],
    ) by {
        assert(own.contains_key(l));
    }
    let m0 = Map::<Seq<char>, Seq<char>>::empty();
    let m1 = with_value(m0, "status"@, "status_value"@, status_candidates(v), Some(f.status.id@));
    let m2 = with_value(
        m1,
        "priority"@,
        "priority_value"@,
        priority_candidates(v),
        labels::priority_of(f),
    );
    let m3 = with_value(m2, "type"@, "type_value"@, type_candidates(v), Some(f.issuetype.name@));
    let m4 = with_value(
        m3,
        "component"@,
        "component_value"@,
        component_candidates(v),
        labels::component_of(f),
    );
    let m5 = with_value(
        m4,
        "tags"@,
        "tag_value"@,
        tag_candidates(v),
        labels::tag_of(f),
    );
    let m6 = with_value(
        m5,
        "estimate"@,
        "estimate_value"@,
        points_candidates(v),
        labels::points_text(f),
    );
    assert(m == m6);
    let id = Some(f.status.id@);
    if id is Some && known(status_candidates(v), id->0) {
        let x = label_id("status"@);
        lemma_frame(m1, "priority"@, "priority_value"@, priority_candidates(v), labels::priority_of(f), x);
        lemma_frame(m2, "type"@, "type_value"@, type_candidates(v), Some(f.issuetype.name@), x);
        lemma_frame(m3, "component"@, "component_value"@, component_candidates(v), labels::component_of(f), x);
        lemma_frame(m4, "tags"@, "tag_value"@, tag_candidates(v), labels::tag_of(f), x);
        lemma_frame(m5, "estimate"@, "estimate_value"@, points_candidates(v), labels::points_text(f), x);
        assert(m6.contains_key(x) && m6[x] == det(NS_JIRA, "status_value"@, id->0));
        assert(value_of(e, k, x) == Some(m[x]));
    }
    let id = labels::priority_of(f);
    if id is Some && known(priority_candidates(v), id->0) {
        let x = label_id("priority"@);
        lemma_frame(m2, "type"@, "type_value"@, type_candidates(v), Some(f.issuetype.name@), x);
        lemma_frame(m3, "component"@, "component_value"@, component_candidates(v), labels::component_of(f), x);
        lemma_frame(m4, "tags"@, "tag_value"@, tag_candidates(v), labels::tag_of(f), x);
        lemma_frame(m5, "estimate"@, "estimate_value"@, points_candidates(v), labels::points_text(f), x);
        assert(m6.contains_key(x) && m6[x] == det(NS_JIRA, "priority_value"@, id->0));
        assert(value_of(e, k, x) == Some(m[x]));
    }
    let id = Some(f.issuetype.name@);
    if id is Some && known(type_candidates(v), id->0) {
        let x = label_id("type"@);
        lemma_frame(m3, "component"@, "component_value"@, component_candidates(v), labels::component_of(f), x);
        lemma_frame(m4, "tags"@, "tag_value"@, tag_candidates(v), labels::tag_of(f), x);
        lemma_frame(m5, "estimate"@, "estimate_value"@, points_candidates(v), labels::points_text(f), x);
        assert(m6.contains_key(x) && m6[x] == det(NS_JIRA, "type_value"@, id->0));
        assert(value_of(e, k, x) == Some(m[x]));
    }
    let id = labels::component_of(f);
    if id is Some && known(component_candidates(v), id->0) {
        let x = label_id("component"@);
        lemma_frame(m4, "tags"@, "tag_value"@, tag_candidates(v), labels::tag_of(f), x);
        lemma_frame(m5, "estimate"@, "estimate_value"@, points_candidates(v), labels::points_text(f), x);
        assert(m6.contains_key(x) && m6[x] == det(NS_JIRA, "component_value"@, id->0));
        assert(value_of(e, k, x) == Some(m[x]));
    }
    let id = labels::tag_of(f);
    if id is Some && known(tag_candidates(v), id->0) {
        let x = label_id("tags"@);
        lemma_frame(m5, "estimate"@, "estimate_value"@, points_candidates(v), labels::points_text(f), x);
        assert(m6.contains_key(x) && m6[x] == det(NS_JIRA, "tag_value"@, id->0));
        assert(value_of(e, k, x) == Some(m[x]));
    }
    let id = labels::points_text(f);
    if id is Some && known(points_candidates(v), id->0) {
        let x = label_id("estimate"@);
        assert(m6.contains_key(x) && m6[x] == det(NS_JIRA, "estimate_value"@, id->0));
        assert(value_of(e, k, x) == Some(m[x]));
    }
}

proof fn lemma_status_listed(v: Seq<JiraIssue>, k: int) -> (c: int)
    requires
        0 <= k < v.len(),
        v[k].fields.status.id@.len() > 0,
        forall|j: int|
            0 <= j < k ==> (#[trigger] v[j]).fields.status.id@ != v[k].fields.status.id@,
    ensures
        0 <= c < status_candidates(v).len(),
        status_candidates(v)[c] == status_candidate(v[k].fields.status),
    decreases v.len(),
{
    let w = v.drop_last();
    let rest = status_candidates(w);
    if k < v.len() - 1 {
        assert forall|j: int| 0 <= j < k implies (#[trigger] w[j]).fields.status.id@
            != w[k].fields.status.id@ by {
            assert(w[j] == v[j]);
        }
        let c = lemma_status_listed(w, k);
        assert(status_candidates(v)[c] == rest[c]);
        c
    } else {
        let id = v[k].fields.status.id@;
        if known(rest, id) {
            let c = choose|c: int| 0 <= c < rest.len() && (#[trigger] rest[c]).id == id;
            crate::import::convert::jira::laws::lemma_statuses_kept(w);
            let j = choose|j: int|
                0 <= j < w.len() && rest[c] == status_candidate((#[trigger] w[j]).fields.status);
            assert(w[j] == v[j]);
            assert(v[j].fields.status.id@ != id);
        }
        rest.len() as int
    }
}

/// The status of an issue, where no issue before has one with its id, is a value of the
/// label `Status` under its own name: blue while it is in progress, green and completing
/// where it is done, and gray otherwise. Every issue with that status has that value.
pub proof fn lemma_status_kept(
    e: SpaceExport,
    p: JiraProject,
    v: Seq<JiraIssue>,
    now: Seq<char>,
    k: int,
    i: int,
)
    requires
        export_is(e, p, v, now),
        ids_apart(e.labels),
        0 <= k < v.len(),
        v[k].fields.status.id@.len() > 0,
        forall|j: int|
            0 <= j < k ==> (#[trigger] v[j]).fields.status.id@ != v[k].fields.status.id@,
        0 <= i < v.len(),
        v[i].fields.status.id@ == v[k].fields.status.id@,
    ensures
        ({
            let s = v[k].fields.status;
            let label = det(NS_JIRA, "label"@, "status"@);
            let value = det(NS_JIRA, "status_value"@, s.id@);
            &&& defines(
                e.labels,
                label,
                "Status"@,
                value,
                s.name@,
                if s.status_category.key@ == "indeterminate"@ {
                    "#3B82F6"@
                } else if s.status_category.key@ == "done"@ {
                    "#22C55E"@
                } else {
                    "#6B7280"@
                },
                s.status_category.key@ == "done"@,
            )
            &&& value_of(e, i, label) == Some(value)
        }),
{
    let c = lemma_status_listed(v, k);
    lemma_values(e, p, v, now, i);
    lemma_positions(v);
    assert(status_candidates(v)[c].id == v[k].fields.status.id@);
    lemma_candidate_defined(
        e.labels,
        label_list(v),
        label_id("status"@),
        0,
        NS_JIRA,
        "status_value"@,
        label_id("status"@),
        "Status"@,
        "circle"@,
        status_candidates(v),
        c,
    );
}

proof fn lemma_priority_from(v: Seq<JiraIssue>, c: int) -> (j: int)
    requires
        0 <= c < priority_candidates(v).len(),
    ensures
        0 <= j < v.len(),
        v[j].fields.priority is Some,
        priority_candidates(v)[c] == priority_candidate(v[j].fields.priority->0),
    decreases v.len(),
{
    let rest = priority_candidates(v.drop_last());
    if v.len() > 0 && c < rest.len() {
        let j = lemma_priority_from(v.drop_last(), c);
        assert(v.drop_last()[j] == v[j]);
        j
    } else {
        v.len() - 1
    }
}

proof fn lemma_priority_listed(v: Seq<JiraIssue>, k: int) -> (c: int)
    requires
        0 <= k < v.len(),
        v[k].fields.priority is Some,
        v[k].fields.priority->0.id@.len() > 0,
        forall|j: int|
            0 <= j < k && (#[trigger] v[j]).fields.priority is Some ==> v[j].fields.priority->0.id@
                != v[k].fields.priority->0.id@,
    ensures
        0 <= c < priority_candidates(v).len(),
        priority_candidates(v)[c] == priority_candidate(v[k].fields.priority->0),
    decreases v.len(),
{
    let w = v.drop_last();
    let rest = priority_candidates(w);
    if k < v.len() - 1 {
        assert forall|j: int| 0 <= j < k && (#[trigger] w[j]).fields.priority is Some implies
            w[j].fields.priority->0.id@ != w[k].fields.priority->0.id@ by {
            assert(w[j] == v[j]);
        }
        let c = lemma_priority_listed(w, k);
        assert(priority_candidates(v)[c] == rest[c]);
        c
    } else {
        let id = v[k].fields.priority->0.id@;
        if known(rest, id) {
            let c = choose|c: int| 0 <= c < rest.len() && (#[trigger] rest[c]).id == id;
            let j = lemma_priority_from(w, c);
            assert(w[j] == v[j]);
            assert(v[j].fields.priority->0.id@ != id);
        }
        rest.len() as int
    }
}

/// The priority of an issue, where no issue before has one with its id, is a value of the
/// label `Priority` under its own name, in the color of its id. Every issue with that
/// priority has that value.
pub proof fn lemma_priority_kept(
    e: SpaceExport,
    p: JiraProject,
    v: Seq<JiraIssue>,
    now: Seq<char>,
    k: int,
    i: int,
)
    requires
        export_is(e, p, v, now),
        ids_apart(e.labels),
        0 <= k < v.len(),
        v[k].fields.priority is Some,
        v[k].fields.priority->0.id@.len() > 0,
        forall|j: int|
            0 <= j < k && (#[trigger] v[j]).fields.priority is Some ==> v[j].fields.priority->0.id@
                != v[k].fields.priority->0.id@,
        0 <= i < v.len(),
        v[i].fields.priority is Some,
        v[i].fields.priority->0.id@ == v[k].fields.priority->0.id@,
    ensures
        ({
            let s = v[k].fields.priority->0;
            let label = det(NS_JIRA, "label"@, "priority"@);
            let value = det(NS_JIRA, "priority_value"@, s.id@);
            &&& defines(
                e.labels,
                label,
                "Priority"@,
                value,
                s.name@,
                if s.id@ == "1"@ {
                    "#DC2626"@
                } else if s.id@ == "2"@ {
                    "#EF4444"@
                } else if s.id@ == "3"@ {
                    "#EAB308"@
                } else if s.id@ == "4"@ {
                    "#3B82F6"@
                } else {
                    "#6B7280"@
                },
                false,
            )
            &&& value_of(e, i, label) == Some(value)
        }),
{
    let c = lemma_priority_listed(v, k);
    lemma_values(e, p, v, now, i);
    lemma_positions(v);
    assert(priority_candidates(v)[c].id == v[k].fields.priority->0.id@);
    lemma_candidate_defined(
        e.labels,
        label_list(v),
        label_id("status"@),
        status_label(v).len() as int,
        NS_JIRA,
        "priority_value"@,
        label_id("priority"@),
        "Priority"@,
        "flag"@,
        priority_candidates(v),
        c,
    );
}

proof fn lemma_type_listed(v: Seq<JiraIssue>, k: int) -> (c: int)
    requires
        0 <= k < v.len(),
        v[k].fields.issuetype.name@.len() > 0,
    ensures
        0 <= c < type_candidates(v).len(),
        type_candidates(v)[c] == name_candidate(v[k].fields.issuetype.name@),
    decreases v.len(),
{
    let w = v.drop_last();
    let rest = type_candidates(w);
    let name = v[k].fields.issuetype.name@;
    if k < v.len() - 1 {
        assert(w[k] == v[k]);
        let c = lemma_type_listed(w, k);
        assert(type_candidates(v)[c] == rest[c]);
        c
    } else if known(rest, name) {
        let c = choose|c: int| 0 <= c < rest.len() && (#[trigger] rest[c]).id == name;
        lemma_type_names(w, c);
        assert(type_candidates(v)[c] == rest[c]);
        c
    } else {
        rest.len() as int
    }
}

proof fn lemma_type_names(v: Seq<JiraIssue>, c: int)
    requires
        0 <= c < type_candidates(v).len(),
    ensures
        type_candidates(v)[c] == name_candidate(type_candidates(v)[c].id),
    decreases v.len(),
{
    let rest = type_candidates(v.drop_last());
    if v.len() > 0 && c < rest.len() {
        lemma_type_names(v.drop_last(), c);
        assert(type_candidates(v)[c] == rest[c]);
    }
}

/// The type of an issue is a value of the label `Type` under its own name, which the issue
/// has.
pub proof fn lemma_type_kept(
    e: SpaceExport,
    p: JiraProject,
    v: Seq<JiraIssue>,
    now: Seq<char>,
    k: int,
)
    requires
        export_is(e, p, v, now),
        ids_apart(e.labels),
        0 <= k < v.len(),
        v[k].fields.issuetype.name@.len() > 0,
    ensures
        ({
            let name = v[k].fields.issuetype.name@;
            let label = det(NS_JIRA, "label"@, "type"@);
            let value = det(NS_JIRA, "type_value"@, name);
            &&& defines(e.labels, label, "Type"@, value, name, "#6B7280"@, false)
            &&& value_of(e, k, label) == Some(value)
        }),
{
    let c = lemma_type_listed(v, k);
    lemma_values(e, p, v, now, k);
    lemma_positions(v);
    assert(type_candidates(v)[c].id == v[k].fields.issuetype.name@);
    lemma_candidate_defined(
        e.labels,
        label_list(v),
        label_id("status"@),
        (status_label(v).len() + priority_label(v).len()) as int,
        NS_JIRA,
        "type_value"@,
        label_id("type"@),
        "Type"@,
        "tag"@,
        type_candidates(v),
        c,
    );
}

proof fn lemma_tags_names(rest: Seq<CandidateView>, v: Seq<String>)
    requires
        forall|c: int| 0 <= c < rest.len() ==> #[trigger] rest[c] == name_candidate(rest[c].id),
    ensures
        forall|c: int|
            0 <= c < with_tags(rest, v).len() ==> #[trigger] with_tags(rest, v)[c]
                == name_candidate(with_tags(rest, v)[c].id),
        forall|c: int| 0 <= c < rest.len() ==> #[trigger] with_tags(rest, v)[c] == rest[c],
        rest.len() <= with_tags(rest, v).len(),
        forall|j: int|
            0 <= j < v.len() && (#[trigger] v[j])@.len() > 0 ==> known(with_tags(rest, v), v[j]@),
    decreases v.len(),
{
    if v.len() > 0 {
        let w = v.drop_last();
        lemma_tags_names(rest, w);
        let before = with_tags(rest, w);
        let all = with_tags(rest, v);
        assert forall|j: int| 0 <= j < v.len() && (#[trigger] v[j])@.len() > 0 implies known(
            all,
            v[j]@,
        ) by {
            if j < w.len() {
                assert(w[j] == v[j]);
                assert(known(before, v[j]@));
                let c = choose|c: int| 0 <= c < before.len() && (#[trigger] before[c]).id == v[j]@;
                assert(all[c].id == v[j]@);
            } else if known(before, v[j]@) {
                let c = choose|c: int| 0 <= c < before.len() && (#[trigger] before[c]).id == v[j]@;
                assert(all[c].id == v[j]@);
            } else {
                assert(all[before.len() as int].id == v[j]@);
            }
        }
    }
}

proof fn lemma_tag_listed(v: Seq<JiraIssue>)
    ensures
        forall|c: int|
            0 <= c < tag_candidates(v).len() ==> #[trigger] tag_candidates(v)[c]
                == name_candidate(tag_candidates(v)[c].id),
        forall|k: int|
            0 <= k < v.len() && (#[trigger] v[k]).fields.labels@.len() > 0
                && v[k].fields.labels@[0]@.len() > 0 ==> known(
                tag_candidates(v),
                v[k].fields.labels@[0]@,
            ),
    decreases v.len(),
{
    if v.len() > 0 {
        let w = v.drop_last();
        lemma_tag_listed(w);
        let rest = tag_candidates(w);
        let all = tag_candidates(v);
        lemma_tags_names(rest, v.last().fields.labels@);
        assert forall|k: int|
            0 <= k < v.len() && (#[trigger] v[k]).fields.labels@.len() > 0
                && v[k].fields.labels@[0]@.len() > 0 implies known(
            all,
            v[k].fields.labels@[0]@,
        ) by {
            let tag = v[k].fields.labels@[0]@;
            if k < w.len() {
                assert(w[k] == v[k]);
                assert(known(rest, tag));
                let c = choose|c: int| 0 <= c < rest.len() && (#[trigger] rest[c]).id == tag;
                assert(all[c].id == tag);
            }
        }
    }
}

/// The first label of an issue is a value of the label `Tags` under its own name, which
/// the issue has.
pub proof fn lemma_tag_kept(
    e: SpaceExport,
    p: JiraProject,
    v: Seq<JiraIssue>,
    now: Seq<char>,
    k: int,
)
    requires
        export_is(e, p, v, now),
        ids_apart(e.labels),
        0 <= k < v.len(),
        v[k].fields.labels@.len() > 0,
        v[k].fields.labels@[0]@.len() > 0,
    ensures
        ({
            let name = v[k].fields.labels@[0]@;
            let label = det(NS_JIRA, "label"@, "tags"@);
            let value = det(NS_JIRA, "tag_value"@, name);
            &&& defines(e.labels, label, "Tags"@, value, name, "#6B7280"@, false)
            &&& value_of(e, k, label) == Some(value)
        }),
{
    lemma_tag_listed(v);
    lemma_values(e, p, v, now, k);
    lemma_positions(v);
    let name = v[k].fields.labels@[0]@;
    let all = tag_candidates(v);
    let c = choose|c: int| 0 <= c < all.len() && (#[trigger] all[c]).id == name;
    lemma_candidate_defined(
        e.labels,
        label_list(v),
        label_id("status"@),
        (status_label(v).len() + priority_label(v).len() + type_label(v).len() + component_label(
            v,
        ).len()) as int,
        NS_JIRA,
        "tag_value"@,
        label_id("tags"@),
        "Tags"@,
        "tag"@,
        all,
        c,
    );
}

proof fn lemma_components_from(rest: Seq<CandidateView>, v: Seq<JiraComponent>)
    ensures
        rest.len() <= with_components(rest, v).len(),
        forall|c: int| 0 <= c < rest.len() ==> #[trigger] with_components(rest, v)[c] == rest[c],
        forall|c: int|
            rest.len() <= c < with_components(rest, v).len() ==> exists|y: int|
                0 <= y < v.len() && #[trigger] with_components(rest, v)[c] == component_candidate(
                    #[trigger] v[y],
                ),
        forall|y: int|
            0 <= y < v.len() && (#[trigger] v[y]).id@.len() > 0 ==> known(
                with_components(rest, v),
                v[y].id@,
            ),
    decreases v.len(),
{
    if v.len() > 0 {
        let w = v.drop_last();
        lemma_components_from(rest, w);
        let before = with_components(rest, w);
        let all = with_components(rest, v);
        assert forall|c: int| rest.len() <= c < all.len() implies exists|y: int|
            0 <= y < v.len() && #[trigger] all[c] == component_candidate(#[trigger] v[y]) by {
            if c < before.len() {
                assert(all[c] == before[c]);
                let y = choose|y: int|
                    0 <= y < w.len() && before[c] == component_candidate(#[trigger] w[y]);
                assert(v[y] == w[y]);
            } else {
                assert(all[c] == component_candidate(v[v.len() - 1]));
            }
        }
        assert forall|y: int| 0 <= y < v.len() && (#[trigger] v[y]).id@.len() > 0 implies known(
            all,
            v[y].id@,
        ) by {
            if y < w.len() {
                assert(w[y] == v[y]);
                assert(known(before, v[y].id@));
                let c = choose|c: int| 0 <= c < before.len() && (#[trigger] before[c]).id == v[y].id@;
                assert(all[c].id == v[y].id@);
            } else if known(before, v[y].id@) {
                let c = choose|c: int| 0 <= c < before.len() && (#[trigger] before[c]).id == v[y].id@;
                assert(all[c].id == v[y].id@);
            } else {
                assert(all[before.len() as int].id == v[y].id@);
            }
        }
    }
}

/// Whether the issue at `x` lists a component at `y`.
pub open spec fn lists_component(v: Seq<JiraIssue>, x: int, y: int) -> bool {
    0 <= x < v.len() && 0 <= y < v[x].fields.components@.len()
}

/// The component that the issue at `x` lists at `y`.
pub open spec fn component_at(v: Seq<JiraIssue>, x: int, y: int) -> JiraComponent {
    v[x].fields.components@[y]
}

proof fn lemma_component_from(v: Seq<JiraIssue>, c: int) -> (r: (int, int))
    requires
        0 <= c < component_candidates(v).len(),
    ensures
        lists_component(v, r.0, r.1),
        component_candidates(v)[c] == component_candidate(component_at(v, r.0, r.1)),
    decreases v.len(),
{
    let w = v.drop_last();
    let rest = component_candidates(w);
    if v.len() > 0 {
        lemma_components_from(rest, v.last().fields.components@);
    }
    if v.len() > 0 && c < rest.len() {
        let r = lemma_component_from(w, c);
        assert(w[r.0] == v[r.0]);
        assert(component_candidates(v)[c] == rest[c]);
        r
    } else {
        let all = component_candidates(v);
        assert(all[c] == with_components(rest, v.last().fields.components@)[c]);
        let y = choose|y: int|
            0 <= y < v.last().fields.components@.len() && all[c] == component_candidate(
                #[trigger] v.last().fields.components@[y],
            );
        (v.len() - 1, y)
    }
}

proof fn lemma_component_known(v: Seq<JiraIssue>, x: int, y: int)
    requires
        lists_component(v, x, y),
        component_at(v, x, y).id@.len() > 0,
    ensures
        known(component_candidates(v), component_at(v, x, y).id@),
    decreases v.len(),
{
    let w = v.drop_last();
    let rest = component_candidates(w);
    let all = component_candidates(v);
    let id = component_at(v, x, y).id@;
    lemma_components_from(rest, v.last().fields.components@);
    if x < v.len() - 1 {
        assert(w[x] == v[x]);
        lemma_component_known(w, x, y);
        let c = choose|c: int| 0 <= c < rest.len() && (#[trigger] rest[c]).id == id;
        assert(all[c] == rest[c]);
    } else {
        assert(v.last().fields.components@[y].id@ == id);
    }
}

/// The first component of an issue is a value of the label `Component`, which the issue
/// has, under a name that an issue gives the component with that id.
pub proof fn lemma_component_kept(
    e: SpaceExport,
    p: JiraProject,
    v: Seq<JiraIssue>,
    now: Seq<char>,
    k: int,
)
    requires
        export_is(e, p, v, now),
        ids_apart(e.labels),
        0 <= k < v.len(),
        v[k].fields.components@.len() > 0,
        v[k].fields.components@[0].id@.len() > 0,
    ensures
        ({
            let id = v[k].fields.components@[0].id@;
            let label = det(NS_JIRA, "label"@, "component"@);
            let value = det(NS_JIRA, "component_value"@, id);
            &&& value_of(e, k, label) == Some(value)
            &&& exists|x: int, y: int|
                #![trigger component_at(v, x, y)]
                lists_component(v, x, y) && component_at(v, x, y).id@ == id && defines(
                    e.labels,
                    label,
                    "Component"@,
                    value,
                    component_at(v, x, y).name@,
                    "#6B7280"@,
                    false,
                )
        }),
{
    lemma_values(e, p, v, now, k);
    lemma_positions(v);
    let id = component_at(v, k, 0).id@;
    let all = component_candidates(v);
    lemma_component_known(v, k, 0);
    let c = choose|c: int| 0 <= c < all.len() && (#[trigger] all[c]).id == id;
    let (x, y) = lemma_component_from(v, c);
    lemma_candidate_defined(
        e.labels,
        label_list(v),
        label_id("status"@),
        (status_label(v).len() + priority_label(v).len() + type_label(v).len()) as int,
        NS_JIRA,
        "component_value"@,
        label_id("component"@),
        "Component"@,
        "folder"@,
        all,
        c,
    );
    assert(component_at(v, x, y).id@ == id);
}

proof fn lemma_points_listed(v: Seq<JiraIssue>)
    ensures
        forall|c: int|
            0 <= c < points_candidates(v).len() ==> (#[trigger] points_candidates(v)[c]).name
                == points_candidates(v)[c].id && points_candidates(v)[c].color == "#6B7280"@
                && !points_candidates(v)[c].done,
        forall|k: int|
            0 <= k < v.len() && (#[trigger] v[k]).fields.story_points is Some
                && v[k].fields.story_points->0.text@.len() > 0 ==> known(
                points_candidates(v),
                v[k].fields.story_points->0.text@,
            ),
    decreases v.len(),
{
    if v.len() > 0 {
        let w = v.drop_last();
        lemma_points_listed(w);
        let rest = points_candidates(w);
        let all = points_candidates(v);
        assert forall|k: int|
            0 <= k < v.len() && (#[trigger] v[k]).fields.story_points is Some
                && v[k].fields.story_points->0.text@.len() > 0 implies known(
            all,
            v[k].fields.story_points->0.text@,
        ) by {
            let id = v[k].fields.story_points->0.text@;
            if k < w.len() {
                assert(w[k] == v[k]);
                assert(known(rest, id));
            }
            if known(rest, id) {
                let c = choose|c: int| 0 <= c < rest.len() && (#[trigger] rest[c]).id == id;
                assert(all[c].id == id);
            } else {
                assert(all[rest.len() as int].id == id);
            }
        }
    }
}

/// The story points of an issue are a value of the label `Estimate` under their own text,
/// which the issue has.
pub proof fn lemma_estimate_kept(
    e: SpaceExport,
    p: JiraProject,
    v: Seq<JiraIssue>,
    now: Seq<char>,
    k: int,
)
    requires
        export_is(e, p, v, now),
        ids_apart(e.labels),
        0 <= k < v.len(),
        v[k].fields.story_points is Some,
        v[k].fields.story_points->0.text@.len() > 0,
    ensures
        ({
            let name = v[k].fields.story_points->0.text@;
            let label = det(NS_JIRA, "label"@, "estimate"@);
            let value = det(NS_JIRA, "estimate_value"@, name);
            &&& defines(e.labels, label, "Estimate"@, value, name, "#6B7280"@, false)
            &&& value_of(e, k, label) == Some(value)
        }),
{
    lemma_points_listed(v);
    lemma_values(e, p, v, now, k);
    lemma_positions(v);
    let name = v[k].fields.story_points->0.text@;
    let all = points_candidates(v);
    let c = choose|c: int| 0 <= c < all.len() && (#[trigger] all[c]).id == name;
    lemma_candidate_defined(
        e.labels,
        label_list(v),
        label_id("status"@),
        (status_label(v).len() + priority_label(v).len() + type_label(v).len() + component_label(
            v,
        ).len() + tag_label(v).len()) as int,
        NS_JIRA,
        "estimate_value"@,
        label_id("estimate"@),
        "Estimate"@,
        "gauge"@,
        all,
        c,
    );
}

// ---------------------------------------------------------------------------
// Links
// ---------------------------------------------------------------------------

proof fn lemma_link_position(v: Seq<JiraIssue>, a: int, b: int) -> (n: int)
    requires
        0 <= a < v.len(),
        0 <= b < v[a].fields.issue_links@.len(),
    ensures
        0 <= n < links(v).len(),
        links(v)[n] == link_ref(v[a].id@, v[a].fields.issue_links@[b]),
    decreases v.len(),
{
    let before = links(v.drop_last());
    if a < v.len() - 1 {
        assert(v.drop_last()[a] == v[a]);
        lemma_link_position(v.drop_last(), a, b)
    } else {
        before.len() + b
    }
}

proof fn lemma_link_from(v: Seq<JiraIssue>, n: int) -> (r: (int, int))
    requires
        0 <= n < links(v).len(),
    ensures
        0 <= r.0 < v.len(),
        0 <= r.1 < v[r.0].fields.issue_links@.len(),
        links(v)[n] == link_ref(v[r.0].id@, v[r.0].fields.issue_links@[r.1]),
    decreases v.len(),
{
    let before = links(v.drop_last());
    if v.len() > 0 && n < before.len() {
        let r = lemma_link_from(v.drop_last(), n);
        assert(v.drop_last()[r.0] == v[r.0]);
        r
    } else {
        (v.len() - 1, n - before.len())
    }
}

proof fn lemma_blocker_in(v: Seq<conversion::LinkRef>, all: Seq<JiraIssue>, k: int, n: int)
    requires
        0 <= n < v.len(),
        v[n].link.link_type.name@ == "Blocks"@,
        link_target(v[n], all) is Some,
        index_of(issue_ids(all), link_target(v[n], all)->0) == Some(k),
    ensures
        blockers(v, all, k).contains(det(NS_JIRA, "item"@, v[n].from)),
    decreases v.len(),
{
    let w = v.drop_last();
    let rest = blockers(w, all, k);
    let out = blockers(v, all, k);
    let id = det(NS_JIRA, "item"@, v[n].from);
    if n < v.len() - 1 {
        assert(w[n] == v[n]);
        lemma_blocker_in(w, all, k, n);
        let i = choose|i: int| 0 <= i < rest.len() && rest[i] == id;
        assert(out[i] == id);
    } else {
        assert(out[rest.len() as int] == id);
    }
}

proof fn lemma_blocker_from(v: Seq<conversion::LinkRef>, all: Seq<JiraIssue>, k: int, b: int) -> (n:
    int)
    requires
        0 <= b < blockers(v, all, k).len(),
    ensures
        0 <= n < v.len(),
        v[n].link.link_type.name@ == "Blocks"@,
        link_target(v[n], all) is Some,
        index_of(issue_ids(all), link_target(v[n], all)->0) == Some(k),
        blockers(v, all, k)[b] == det(NS_JIRA, "item"@, v[n].from),
    decreases v.len(),
{
    let w = v.drop_last();
    let rest = blockers(w, all, k);
    if v.len() > 0 && b < rest.len() {
        let n = lemma_blocker_from(w, all, k, b);
        assert(w[n] == v[n]);
        n
    } else {
        v.len() - 1
    }
}

/// Whether the issue at `a` lists a link of the given type that leads out to the issue
/// with the id `to`.
pub open spec fn links_to(v: Seq<JiraIssue>, a: int, b: int, name: Seq<char>, to: Seq<char>) -> bool {
    &&& 0 <= a < v.len()
    &&& 0 <= b < v[a].fields.issue_links@.len()
    &&& v[a].fields.issue_links@[b].link_type.name@ == name
    &&& v[a].fields.issue_links@[b].outward_issue is Some
    &&& v[a].fields.issue_links@[b].outward_issue->0.id@ == to
}

/// A link by which an issue blocks another makes the item of the first a blocker of the
/// item of the other, not the other way round; and every blocker of an item comes from such
/// a link to it. No two issues share an id.
pub proof fn lemma_blocks_kept(
    e: SpaceExport,
    p: JiraProject,
    v: Seq<JiraIssue>,
    now: Seq<char>,
    a: int,
    b: int,
    k: int,
)
    requires
        export_is(e, p, v, now),
        issue_ids(v).no_duplicates(),
        0 <= k < v.len(),
        links_to(v, a, b, "Blocks"@, v[k].id@),
    ensures
        text::texts(e.items@[k].blocked_by@).contains(det(NS_JIRA, "item"@, v[a].id@)),
        forall|i: int|
            0 <= i < e.items@[k].blocked_by@.len() ==> exists|x: int, y: int|
                0 <= x < v.len() && 0 <= y < v[x].fields.issue_links@.len() && (
                #[trigger] e.items@[k].blocked_by@[i])@ == det(NS_JIRA, "item"@, v[x].id@) && (
                #[trigger] v[x].fields.issue_links@[y]).link_type.name@ == "Blocks"@
                    && v[x].fields.issue_links@[y].outward_issue is Some,
{
    let all = links(v);
    let n = lemma_link_position(v, a, b);
    let ids = issue_ids(v);
    assert(ids[k] == v[k].id@);
    assert(ids.contains(v[k].id@));
    assert forall|i: int| k < i < ids.len() implies #[trigger] ids[i] != ids[k] by {}
    common::lemma_last_index(ids, k);
    lemma_blocker_in(all, v, k, n);
    let item = e.items@[k];
    assert(text::texts(item.blocked_by@) == blockers(all, v, k));
    assert forall|i: int| 0 <= i < item.blocked_by@.len() implies exists|x: int, y: int|
        0 <= x < v.len() && 0 <= y < v[x].fields.issue_links@.len() && (
        #[trigger] item.blocked_by@[i])@ == det(NS_JIRA, "item"@, v[x].id@) && (
        #[trigger] v[x].fields.issue_links@[y]).link_type.name@ == "Blocks"@
            && v[x].fields.issue_links@[y].outward_issue is Some by {
        assert(text::texts(item.blocked_by@)[i] == item.blocked_by@[i]@);
        let m = lemma_blocker_from(all, v, k, i);
        let (x, y) = lemma_link_from(v, m);
        assert(v[x].fields.issue_links@[y].link_type.name@ == "Blocks"@);
    }
}

proof fn lemma_duplicated_last(v: Seq<conversion::LinkRef>, all: Seq<JiraIssue>, k: int, n: int)
    requires
        0 <= n < v.len(),
        v[n].link.link_type.name@ == "Duplicate"@,
        link_target(v[n], all) is Some,
        index_of(issue_ids(all), v[n].from) == Some(k),
        forall|m: int|
            n < m < v.len() ==> (#[trigger] v[m]).from != v[n].from || v[m].link.link_type.name@
                != "Duplicate"@ || link_target(v[m], all) is None,
        forall|m: int|
            0 <= m < v.len() && index_of(issue_ids(all), (#[trigger] v[m]).from) == Some(k)
                ==> v[m].from == v[n].from,
    ensures
        duplicated(v, all, k) == Some(det(NS_JIRA, "item"@, link_target(v[n], all)->0)),
    decreases v.len(),
{
    if n < v.len() - 1 {
        let w = v.drop_last();
        assert forall|m: int| 0 <= m < w.len() implies w[m] == #[trigger] v[m] by {}
        assert forall|m: int| n < m < w.len() implies (#[trigger] w[m]).from != w[n].from
            || w[m].link.link_type.name@ != "Duplicate"@ || link_target(w[m], all) is None by {
            assert(w[m] == v[m]);
        }
        assert forall|m: int|
            0 <= m < w.len() && index_of(issue_ids(all), (#[trigger] w[m]).from) == Some(
                k,
            ) implies w[m].from == w[n].from by {
            assert(w[m] == v[m]);
        }
        lemma_duplicated_last(w, all, k, n);
        let m = v.len() - 1;
        assert(v[m] == v.last());
        assert(v[m].from != v[n].from || v[m].link.link_type.name@ != "Duplicate"@ || link_target(
            v[m],
            all,
        ) is None);
    }
}

/// An issue whose only link is that it duplicates another becomes an item that is a
/// duplicate of the item of that other. No two issues share an id.
pub proof fn lemma_duplicate_kept(
    e: SpaceExport,
    p: JiraProject,
    v: Seq<JiraIssue>,
    now: Seq<char>,
    a: int,
    k: int,
)
    requires
        export_is(e, p, v, now),
        issue_ids(v).no_duplicates(),
        0 <= k < v.len(),
        links_to(v, a, 0, "Duplicate"@, v[k].id@),
        v[a].fields.issue_links@.len() == 1,
    ensures
        e.items@[a].duplicate_of is Some,
        e.items@[a].duplicate_of->0@ == det(NS_JIRA, "item"@, v[k].id@),
{
    let all = links(v);
    let n = lemma_link_position(v, a, 0);
    let ids = issue_ids(v);
    assert(ids[k] == v[k].id@ && ids[a] == v[a].id@);
    assert(ids.contains(v[k].id@));
    assert forall|i: int| a < i < ids.len() implies #[trigger] ids[i] != ids[a] by {}
    common::lemma_last_index(ids, a);
    assert forall|m: int| 0 <= m < all.len() && (#[trigger] all[m]).from == v[a].id@ implies m
        == n by {
        lemma_only_link(v, a, m, n);
    }
    assert forall|m: int|
        0 <= m < all.len() && index_of(ids, (#[trigger] all[m]).from) == Some(a) implies
        all[m].from == all[n].from by {
        lemma_index_of(ids, all[m].from);
    }
    lemma_duplicated_last(all, v, a, n);
    assert(text::opt_text(e.items@[a].duplicate_of) == duplicated(all, v, a));
}

proof fn lemma_only_link(v: Seq<JiraIssue>, a: int, m: int, n: int)
    requires
        issue_ids(v).no_duplicates(),
        0 <= a < v.len(),
        v[a].fields.issue_links@.len() == 1,
        0 <= m < links(v).len(),
        0 <= n < links(v).len(),
        links(v)[m].from == v[a].id@,
        links(v)[n].from == v[a].id@,
    ensures
        m == n,
    decreases v.len(),
{
    let w = v.drop_last();
    let before = links(w);
    let ids = issue_ids(v);
    let z = v.len() - 1;
    assert forall|i: int| 0 <= i < ids.len() implies #[trigger] ids[i] == v[i].id@ by {}
    assert(issue_ids(w) =~= ids.drop_last());
    if a < z {
        if m >= before.len() {
            assert(links(v)[m].from == v[z].id@);
            assert(ids[a] != ids[z]);
        }
        if n >= before.len() {
            assert(links(v)[n].from == v[z].id@);
            assert(ids[a] != ids[z]);
        }
        lemma_only_link(w, a, m, n);
    } else {
        if m < before.len() {
            let (x, y) = lemma_link_from(w, m);
            assert(ids[x] != ids[a]);
        }
        if n < before.len() {
            let (x, y) = lemma_link_from(w, n);
            assert(ids[x] != ids[a]);
        }
    }
}

// ---------------------------------------------------------------------------
// Comments
// ---------------------------------------------------------------------------

/// Every comment on an issue is a comment on an item with the id of that issue, with the
/// author, the times and the text of the comment, and with no parent.
pub proof fn lemma_comment_kept(
    e: SpaceExport,
    p: JiraProject,
    v: Seq<JiraIssue>,
    now: Seq<char>,
    i: int,
    c: int,
)
    requires
        export_is(e, p, v, now),
        0 <= i < v.len(),
        0 <= c < v[i].fields.comment.comments@.len(),
    ensures
        exists|k: int, j: int|
            0 <= k < e.items@.len() && e.items@[k].id@ == det(NS_JIRA, "item"@, v[i].id@) && 0 <= j
                < e.items@[k].comments@.len() && is_comment(
                #[trigger] e.items@[k].comments@[j],
                v[i].fields.comment.comments@[c],
                v[i].fields.attachment@,
                e.space.id@,
            ),
{
    lemma_comments_kept(e, p, v, now, i, c);
    let x = v[i].fields.comment.comments@[c];
    let (k, j) = choose|k: int, j: int|
        0 <= k < e.items@.len() && (#[trigger] e.items@[k]).id@ == det(NS_JIRA, "item"@, v[i].id@)
            && 0 <= j < e.items@[k].comments@.len() && comment_is(
            #[trigger] e.items@[k].comments@[j],
            comment_ref(v[i], x),
            conversion::space_of(p),
        );
    assert(is_comment(e.items@[k].comments@[j], x, v[i].fields.attachment@, e.space.id@));
}

/// Whether `o` holds a comment, on an issue with the given attachments.
pub open spec fn is_comment(
    o: ExportComment,
    c: JiraComment,
    attachments: Seq<JiraAttachment>,
    space: Seq<char>,
) -> bool {
    let body = resolved(
        match c.body {
            Some(n) => if n is Null {
                ""@
            } else {
                adf::markdown_of(n)
            },
            None => ""@,
        },
        attachments,
        space,
    );
    &&& o.id@ == det(NS_JIRA, "comment"@, c.id@)
    &&& (match c.author {
        Some(u) => {
            &&& u.account_id@.len() > 0 ==> o.author_id@ == det(NS_JIRA, "user"@, u.account_id@)
            &&& u.account_id@.len() == 0 ==> o.author_id@ == codec::nil_uuid_text()
            &&& u.display_name@.len() > 0 ==> o.author_name is Some && o.author_name->0@
                == u.display_name@
            &&& u.display_name@.len() == 0 ==> o.author_name is None
        },
        None => o.author_id@ == codec::nil_uuid_text() && o.author_name is None,
    })
    &&& text::trim_of(body).len() > 0 ==> o.content_text is Some && o.content_text->0@ == body
    &&& text::trim_of(body).len() == 0 ==> o.content_text is None
    &&& content_is(o.content_yjs, body)
    &&& same_text(o.created_at, c.created)
    &&& same_text(o.edited_at, c.updated)
    &&& !o.deleted
    &&& o.deleted_at is None
    &&& o.parent_id is None
}

// ---------------------------------------------------------------------------
// Views
// ---------------------------------------------------------------------------

/// A project has a board by status and, where an issue was in a sprint, one by sprint
/// behind it.
pub proof fn lemma_views_kept(e: SpaceExport, p: JiraProject, v: Seq<JiraIssue>, now: Seq<char>)
    requires
        export_is(e, p, v, now),
        det(NS_JIRA, "view"@, "by-status"@) != det(NS_JIRA, "view"@, "by-sprint"@),
    ensures
        ({
            let by_status = det(NS_JIRA, "view"@, "by-status"@);
            let by_sprint = det(NS_JIRA, "view"@, "by-sprint"@);
            let status = det(NS_JIRA, "label"@, "status"@);
            let defs = e.views.definitions@;
            let any = exists|a: int, b: int| #[trigger] lists_sprint(v, a, b);
            &&& text::texts(e.views.order@) == (if any {
                seq![by_status, by_sprint]
            } else {
                seq![by_status]
            })
            &&& defs.contains_key(by_status)
            &&& common::is_board(defs[by_status], by_status, "By Status"@, status, "0"@)
            &&& defs.contains_key(by_sprint) <==> any
            &&& any ==> common::is_board(
                defs[by_sprint],
                by_sprint,
                "By Sprint"@,
                "cycle"@,
                "1"@,
            )
        }),
{
    let any = exists|a: int, b: int| #[trigger] lists_sprint(v, a, b);
    if sprints(v).len() > 0 {
        let (a, b) = lemma_sprint_from(v, 0);
        assert(sprints(v)[0] == sprint_at(v, a, b));
    }
    if any {
        let (a, b) = choose|a: int, b: int| #[trigger] lists_sprint(v, a, b);
        let k = lemma_sprint_position(v, a, b);
    }
    let by_status = det(NS_JIRA, "view"@, "by-status"@);
    let by_sprint = det(NS_JIRA, "view"@, "by-sprint"@);
    assert(e.views.definitions@.dom().contains(by_status));
}

// ---------------------------------------------------------------------------
// Attachments
// ---------------------------------------------------------------------------

/// What is gathered stays, and what is added is one of the attachments.
proof fn lemma_minted_from(
    g: Gathered,
    v: Seq<JiraAttachment>,
    by: Seq<char>,
    now: Seq<char>,
    x: int,
) -> (n: int)
    requires
        0 <= x < all_minted(g, v, by, now).list.len(),
    ensures
        x < g.list.len() ==> all_minted(g, v, by, now).list[x] == g.list[x],
        x >= g.list.len() ==> 0 <= n < v.len() && all_minted(g, v, by, now).list[x] == exported(
            v[n],
            by,
            now,
        ),
    decreases v.len(),
{
    if v.len() == 0 {
        0
    } else {
        let h = minted(g, v[0], by, now);
        let n = lemma_minted_from(h, v.skip(1), by, now, x);
        if x < g.list.len() {
            assert(h.list[x] == g.list[x]);
            0
        } else if x < h.list.len() {
            assert(h.list[x] == exported(v[0], by, now));
            0
        } else {
            assert(v.skip(1)[n] == v[n + 1]);
            n + 1
        }
    }
}

proof fn lemma_named_from(v: Seq<JiraAttachment>, alt: Seq<char>)
    ensures
        media::named(v, alt) matches Some(a) ==> v.contains(a),
    decreases v.len(),
{
    if v.len() > 0 {
        lemma_named_from(v.skip(1), alt);
        if let Some(a) = media::named(v, alt) {
            if v[0].filename@.len() > 0 && v[0].filename@ == alt {
            } else {
                let j = choose|j: int| 0 <= j < v.skip(1).len() && v.skip(1)[j] == a;
                assert(v[j + 1] == a);
            }
        }
    }
}

proof fn lemma_with_id_from(v: Seq<JiraAttachment>, id: Seq<char>)
    ensures
        media::with_id(v, id) matches Some(a) ==> v.contains(a),
    decreases v.len(),
{
    if v.len() > 0 {
        lemma_with_id_from(v.skip(1), id);
        if let Some(a) = media::with_id(v, id) {
            if v[0].id@ != id {
                let j = choose|j: int| 0 <= j < v.skip(1).len() && v.skip(1)[j] == a;
                assert(v[j + 1] == a);
            }
        }
    }
}

proof fn lemma_shown_from(s: Seq<char>, v: Seq<JiraAttachment>, n: int)
    requires
        0 <= n < media::shown_in(s, v).len(),
    ensures
        v.contains(media::shown_in(s, v)[n]),
    decreases s.len(),
{
    if let Some(i) = media::first_image(s) {
        media::lemma_first_image(s);
        let rest = media::shown_in(s.skip(i.end), v);
        match media::shown(v, i.alt, i.id) {
            Some(a) => {
                lemma_named_from(v, i.alt);
                lemma_with_id_from(v, i.id);
                if n > 0 {
                    lemma_shown_from(s.skip(i.end), v, n - 1);
                }
            },
            None => {
                lemma_shown_from(s.skip(i.end), v, n);
            },
        }
    }
}

/// Whether one of the issues has the attachment.
pub open spec fn has_file(v: Seq<JiraIssue>, a: JiraAttachment) -> bool {
    exists|i: int| 0 <= i < v.len() && (#[trigger] v[i]).fields.attachment@.contains(a)
}

proof fn lemma_item_file(v: Seq<JiraIssue>, n: int)
    requires
        0 <= n < conversion::item_attachments(v).len(),
    ensures
        has_file(v, conversion::item_attachments(v)[n]),
    decreases v.len(),
{
    if v.len() > 0 {
        let w = v.drop_last();
        let before = conversion::item_attachments(w);
        let f = v.last().fields;
        if n < before.len() {
            lemma_item_file(w, n);
            let i = choose|i: int|
                0 <= i < w.len() && (#[trigger] w[i]).fields.attachment@.contains(before[n]);
            assert(v[i] == w[i]);
        } else {
            let own = conversion::issue_attachments(f);
            let a = own[n - before.len()];
            if let Some(m) = conversion::description_of(f) {
                let shown = media::shown_in(m, f.attachment@);
                if n - before.len() < shown.len() {
                    lemma_shown_from(m, f.attachment@, n - before.len());
                } else {
                    assert(f.attachment@[n - before.len() - shown.len()] == a);
                }
            } else {
                assert(f.attachment@[n - before.len()] == a);
            }
            assert(v[v.len() - 1].fields.attachment@.contains(a));
        }
    }
}

proof fn lemma_comment_file(v: Seq<JiraIssue>, c: Seq<CommentRef>, n: int)
    requires
        0 <= n < conversion::comment_attachments(c).len(),
        forall|m: int|
            0 <= m < c.len() ==> exists|i: int|
                0 <= i < v.len() && #[trigger] v[i] == (#[trigger] c[m]).issue,
    ensures
        has_file(v, conversion::comment_attachments(c)[n]),
    decreases c.len(),
{
    if c.len() > 0 {
        let w = c.drop_last();
        let before = conversion::comment_attachments(w);
        if n < before.len() {
            assert forall|m: int| 0 <= m < w.len() implies exists|i: int|
                0 <= i < v.len() && #[trigger] v[i] == (#[trigger] w[m]).issue by {
                assert(w[m] == c[m]);
            }
            lemma_comment_file(v, w, n);
        } else {
            let r = c[c.len() - 1];
            lemma_shown_from(
                conversion::comment_markdown(r.comment),
                r.issue.fields.attachment@,
                n - before.len(),
            );
            let i = choose|i: int| 0 <= i < v.len() && #[trigger] v[i] == r.issue;
            assert(v[i].fields.attachment@.contains(conversion::comment_attachments(c)[n]));
        }
    }
}

proof fn lemma_comment_issue(v: Seq<JiraIssue>, m: int) -> (i: int)
    requires
        0 <= m < comments(v).len(),
    ensures
        0 <= i < v.len(),
        v[i] == comments(v)[m].issue,
    decreases v.len(),
{
    let before = comments(v.drop_last());
    if v.len() > 0 && m < before.len() {
        let i = lemma_comment_issue(v.drop_last(), m);
        assert(v.drop_last()[i] == v[i]);
        i
    } else {
        assert(comments(v)[m] == issue_comments(v.last())[m - before.len()]);
        v.len() - 1
    }
}

proof fn lemma_own_file(v: Seq<JiraIssue>, i: int, j: int)
    requires
        0 <= i < v.len(),
        0 <= j < v[i].fields.attachment@.len(),
    ensures
        conversion::item_attachments(v).contains(v[i].fields.attachment@[j]),
    decreases v.len(),
{
    let w = v.drop_last();
    let before = conversion::item_attachments(w);
    let all = conversion::item_attachments(v);
    let a = v[i].fields.attachment@[j];
    if i < v.len() - 1 {
        assert(w[i] == v[i]);
        lemma_own_file(w, i, j);
        let n = choose|n: int| 0 <= n < before.len() && before[n] == a;
        assert(all[n] == a);
    } else {
        let own = conversion::issue_attachments(v.last().fields);
        let at = own.len() - v.last().fields.attachment@.len() + j;
        assert(own[at] == a);
        assert(all[before.len() + at] == a);
    }
}

/// Whether an attachment of a space is the file of an issue. Where its author or its time
/// is not known, those given stand in.
pub open spec fn is_file(
    x: ExportAttachment,
    a: JiraAttachment,
    by: Seq<char>,
    now: Seq<char>,
) -> bool {
    &&& x.id@ == det(NS_JIRA, "attachment"@, a.id@)
    &&& a.filename@.len() > 0 ==> x.filename@ == a.filename@
    &&& a.filename@.len() == 0 ==> x.filename@ == "attachment"@
    &&& x.content_type@ == (if a.mime_type is Some && a.mime_type->0@.len() > 0 {
        a.mime_type->0@
    } else {
        "application/octet-stream"@
    })
    &&& x.size_bytes == a.size
    &&& x.uploaded_by@ == (if a.author is Some && a.author->0.account_id@.len() > 0 {
        det(NS_JIRA, "user"@, a.author->0.account_id@)
    } else {
        by
    })
    &&& x.uploaded_at@ == (match a.created {
        Some(t) => t@,
        None => now,
    })
    &&& x.document_id is None
    &&& !x.orphaned
}

/// Who stands in for an unknown uploader: the first user of the export, or nobody.
pub open spec fn first_user(e: SpaceExport) -> Seq<char> {
    if e.users@.len() > 0 {
        e.users@[0].id@
    } else {
        codec::nil_uuid_text()
    }
}

/// Every file of an issue is an attachment of the space, and every attachment of the space
/// is a file of an issue, with its name, its type, its size, its author and its time.
pub proof fn lemma_attachment_kept(
    e: SpaceExport,
    p: JiraProject,
    v: Seq<JiraIssue>,
    now: Seq<char>,
    i: int,
    j: int,
)
    requires
        export_is(e, p, v, now),
        0 <= i < v.len(),
        0 <= j < v[i].fields.attachment@.len(),
    ensures
        exists|x: int|
            0 <= x < e.attachments@.len() && (#[trigger] e.attachments@[x]).id@ == det(
                NS_JIRA,
                "attachment"@,
                v[i].fields.attachment@[j].id@,
            ),
        forall|x: int|
            0 <= x < e.attachments@.len() ==> is_some_file(
                #[trigger] e.attachments@[x],
                v,
                first_user(e),
                now,
            ),
{
    let by = conversion::stand_in(e.users@);
    let all = conversion::item_attachments(v) + conversion::comment_attachments(comments(v));
    let g = common::none_gathered();
    let h = all_minted(g, all, by, now);
    let views = attachment_views(e.attachments@);
    assert(views == h.list);
    let a = v[i].fields.attachment@[j];
    lemma_own_file(v, i, j);
    let n = choose|n: int|
        0 <= n < conversion::item_attachments(v).len() && conversion::item_attachments(v)[n] == a;
    assert(all[n] == a);
    media::lemma_minted_once(g, all, by, now);
    assert(has_attachment(h, attachment_id(all[n])));
    let x = choose|x: int|
        0 <= x < h.list.len() && (#[trigger] h.list[x]).id == attachment_id(all[n]);
    assert(views[x] == attachment_view(e.attachments@[x]));
    assert(e.attachments@[x].id@ == attachment_id(a));
    assert forall|x: int| 0 <= x < e.attachments@.len() implies is_some_file(
        #[trigger] e.attachments@[x],
        v,
        first_user(e),
        now,
    ) by {
        assert(views[x] == attachment_view(e.attachments@[x]));
        let n = lemma_minted_from(g, all, by, now, x);
        let own = conversion::item_attachments(v);
        if n < own.len() {
            lemma_item_file(v, n);
        } else {
            assert forall|m: int| 0 <= m < comments(v).len() implies exists|i: int|
                0 <= i < v.len() && #[trigger] v[i] == (#[trigger] comments(v)[m]).issue by {
                let i = lemma_comment_issue(v, m);
                assert(v[i] == comments(v)[m].issue);
            }
            lemma_comment_file(v, comments(v), n - own.len());
        }
        assert(has_file(v, all[n]));
        assert(is_file(e.attachments@[x], all[n], by, now));
    }
}

/// Whether an attachment of a space is the file of one of the issues.
pub open spec fn is_some_file(
    x: ExportAttachment,
    v: Seq<JiraIssue>,
    by: Seq<char>,
    now: Seq<char>,
) -> bool {
    exists|a: JiraAttachment| #[trigger] has_file(v, a) && is_file(x, a, by, now)
}

// ---------------------------------------------------------------------------
// Users
// ---------------------------------------------------------------------------

proof fn lemma_account_listed(v: Seq<users::Person>, n: int)
    requires
        0 <= n < v.len(),
        v[n].account.len() > 0,
    ensures
        users::accounts(v).contains(v[n].account),
    decreases v.len(),
{
    let w = v.drop_last();
    let rest = users::accounts(w);
    let all = users::accounts(v);
    if n < v.len() - 1 {
        assert(w[n] == v[n]);
        lemma_account_listed(w, n);
    }
    if rest.contains(v[n].account) {
        let k = choose|k: int| 0 <= k < rest.len() && rest[k] == v[n].account;
        assert(all[k] == v[n].account);
    } else {
        assert(all[rest.len() as int] == v[n].account);
    }
}

proof fn lemma_person_listed(v: Seq<JiraIssue>, k: int, u: JiraUser)
    requires
        0 <= k < v.len(),
        v[k].fields.assignee == Some(u) || v[k].fields.reporter == Some(u)
            || v[k].fields.creator == Some(u),
    ensures
        users::all_persons(v).contains(users::person(u)),
    decreases v.len(),
{
    let w = v.drop_last();
    let before = users::all_persons(w);
    let all = users::all_persons(v);
    let x = users::person(u);
    if k < v.len() - 1 {
        assert(w[k] == v[k]);
        lemma_person_listed(w, k, u);
        let n = choose|n: int| 0 <= n < before.len() && before[n] == x;
        assert(all[n] == x);
    } else {
        let f = v.last().fields;
        let own = users::issue_persons(v.last());
        let a = users::just_person(f.assignee);
        let b = users::just_person(f.reporter);
        let at: int = if f.assignee == Some(u) {
            0
        } else if f.reporter == Some(u) {
            a.len() as int
        } else {
            (a.len() + b.len()) as int
        };
        assert(own[at] == x);
        assert(all[before.len() + at] == x);
    }
}

proof fn lemma_name_from(v: Seq<users::Person>, account: Seq<char>)
    ensures
        users::name_of(v, account).len() > 0 ==> exists|n: int|
            0 <= n < v.len() && (#[trigger] v[n]).account == account && v[n].name
                == users::name_of(v, account),
        forall|n: int|
            0 <= n < v.len() && (#[trigger] v[n]).account == account && v[n].name.len() > 0
                ==> users::name_of(v, account).len() > 0,
    decreases v.len(),
{
    if v.len() > 0 {
        let w = v.drop_last();
        lemma_name_from(w, account);
        if users::name_of(w, account).len() > 0 {
            let n = choose|n: int|
                0 <= n < w.len() && (#[trigger] w[n]).account == account && w[n].name
                    == users::name_of(w, account);
            assert(v[n] == w[n]);
        } else {
            assert forall|n: int|
                0 <= n < v.len() && (#[trigger] v[n]).account == account && v[n].name.len()
                    > 0 implies users::name_of(v, account).len() > 0 by {
                if n < w.len() {
                    assert(w[n] == v[n]);
                }
            }
            if users::name_of(v, account).len() > 0 {
                assert(v[v.len() - 1].name == users::name_of(v, account));
            }
        }
    }
}

/// Everyone to whom an issue is assigned, who reported it or created it, and has an
/// account, is a user of the export, under a name that they go by; one who has a name
/// somewhere is not called unknown.
pub proof fn lemma_user_kept(
    e: SpaceExport,
    p: JiraProject,
    v: Seq<JiraIssue>,
    now: Seq<char>,
    k: int,
    u: JiraUser,
)
    requires
        export_is(e, p, v, now),
        0 <= k < v.len(),
        v[k].fields.assignee == Some(u) || v[k].fields.reporter == Some(u)
            || v[k].fields.creator == Some(u),
        u.account_id@.len() > 0,
    ensures
        exists|x: int|
            0 <= x < e.users@.len() && (#[trigger] e.users@[x]).id@ == det(
                NS_JIRA,
                "user"@,
                u.account_id@,
            ) && e.users@[x].display_name@.len() > 0 && (u.display_name@.len() > 0 ==> exists|n: int|

                0 <= n < users::all_persons(v).len() && (#[trigger] users::all_persons(v)[n]).account
                    == u.account_id@ && users::all_persons(v)[n].name
                    == e.users@[x].display_name@),
{
    reveal_strlit("Unknown user");
    let people = users::all_persons(v);
    let all = users::accounts(people);
    lemma_person_listed(v, k, u);
    let n = choose|n: int| 0 <= n < people.len() && people[n] == users::person(u);
    lemma_account_listed(people, n);
    let y = choose|y: int| 0 <= y < all.len() && all[y] == u.account_id@;
    let keys = all.map_values(|s: Seq<char>| users::account_key(s));
    crate::order::lemma_order(keys);
    let o = users::account_order(all);
    assert(o.contains(y));
    let x = choose|x: int| 0 <= x < o.len() && o[x] == y;
    assert(users::user_is(e.users@[x], people, all[o[x]]));
    lemma_name_from(people, u.account_id@);
    assert(e.users@[x].id@ == det(NS_JIRA, "user"@, u.account_id@));
}

// ---------------------------------------------------------------------------
// Warnings
// ---------------------------------------------------------------------------

proof fn lemma_warned(v: Seq<JiraIssue>, k: int, w: Seq<char>)
    requires
        0 <= k < v.len(),
        labels::label_warnings(v[k]).contains(w),
    ensures
        conversion::item_warnings(v).contains(w),
    decreases v.len(),
{
    let before = conversion::item_warnings(v.drop_last());
    let own = conversion::issue_warnings(v.last());
    let all = conversion::item_warnings(v);
    if k < v.len() - 1 {
        assert(v.drop_last()[k] == v[k]);
        lemma_warned(v.drop_last(), k, w);
        let n = choose|n: int| 0 <= n < before.len() && before[n] == w;
        assert(all[n] == w);
    } else {
        let l = labels::label_warnings(v[k]);
        let n = choose|n: int| 0 <= n < l.len() && l[n] == w;
        assert(own[n] == w);
        assert(all[before.len() + n] == w);
    }
}

/// An issue with more than one component, or with more than one label, is warned of, with
/// its key, how many there are and how many are dropped.
pub proof fn lemma_surplus_warned(
    c: JiraConversion,
    p: JiraProject,
    v: Seq<JiraIssue>,
    now: Seq<char>,
    k: int,
)
    requires
        is_conversion(c, p, v, now),
        0 <= k < v.len(),
    ensures
        v[k].fields.components@.len() > 1 ==> text::texts(c.warnings@).contains(
            "issue "@ + v[k].key@ + " had "@ + text::decimal(v[k].fields.components@.len())
                + " components; Component"@ + " keeps only the first ("@ + text::decimal(
                (v[k].fields.components@.len() - 1) as nat,
            ) + " dropped)"@,
        ),
        v[k].fields.labels@.len() > 1 ==> text::texts(c.warnings@).contains(
            "issue "@ + v[k].key@ + " had "@ + text::decimal(v[k].fields.labels@.len())
                + " labels; Tags"@ + " keeps only the first ("@ + text::decimal(
                (v[k].fields.labels@.len() - 1) as nat,
            ) + " dropped)"@,
        ),
{
    let all = text::texts(c.warnings@);
    let first = conversion::item_warnings(v);
    let f = v[k].fields;
    let l = labels::label_warnings(v[k]);
    let a = labels::surplus_warning(v[k].key@, f.components@.len() as int, " components; Component"@);
    let b = labels::surplus_warning(v[k].key@, f.labels@.len() as int, " labels; Tags"@);
    if f.components@.len() > 1 {
        assert(l[0] == a[0]);
        lemma_warned(v, k, a[0]);
        let n = choose|n: int| 0 <= n < first.len() && first[n] == a[0];
        assert(all[n] == a[0]);
    }
    if f.labels@.len() > 1 {
        assert(l[a.len() as int] == b[0]);
        lemma_warned(v, k, b[0]);
        let n = choose|n: int| 0 <= n < first.len() && first[n] == b[0];
        assert(all[n] == b[0]);
    }
}

// ---------------------------------------------------------------------------
// Images in texts
// ---------------------------------------------------------------------------

proof fn lemma_image_before(pre: Seq<char>, alt: Seq<char>, n: int)
    requires
        !alt.contains('['),
        pre.len() + 2 <= n <= pre.len() + 2 + alt.len(),
    ensures
        media::image_before(pre + "!["@ + alt, n) == Some(pre.len() as int),
    decreases n,
{
    reveal_strlit("![");
    let s = pre + "!["@ + alt;
    let k = pre.len() as int;
    if n == k + 2 {
        assert(s[k] == '!' && s[k + 1] == '[');
    } else {
        assert(s[n - 1] == alt[n - 1 - k - 2]);
        assert(alt.contains(alt[n - 1 - k - 2]));
        lemma_image_before(pre, alt, n - 1);
    }
}

proof fn lemma_first_image(pre: Seq<char>, alt: Seq<char>, id: Seq<char>, post: Seq<char>)
    requires
        !alt.contains('['),
        !id.contains(')'),
        text::find_of(
            pre + "!["@ + alt + "](jira-media:"@ + id + ")"@ + post,
            "](jira-media:"@,
        ) == Some(pre.len() + 2 + alt.len() as int),
    ensures
        ({
            let s = pre + "!["@ + alt + "](jira-media:"@ + id + ")"@ + post;
            &&& media::first_image(s) is Some
            &&& media::first_image(s)->0.alt == alt
            &&& media::first_image(s)->0.id == id
            &&& s.take(media::first_image(s)->0.start) == pre + "!["@ + alt + "]("@
            &&& s.skip(media::first_image(s)->0.end) == ")"@ + post
        }),
{
    reveal_strlit("![");
    reveal_strlit("](jira-media:");
    reveal_strlit("](");
    reveal_strlit(")");
    let s = pre + "!["@ + alt + "](jira-media:"@ + id + ")"@ + post;
    let pos = pre.len() + 2 + alt.len() as int;
    let after = s.skip(pos + 2);
    let close = 11 + id.len() as int;
    assert(after[close] == ')');
    assert forall|j: int| 0 <= j < close implies #[trigger] after[j] != ')' by {
        if j < 11 {
            assert(after[j] == "](jira-media:"@[j + 2]);
        } else {
            assert(after[j] == id[j - 11]);
        }
    }
    text::lemma_find_char_at(after, ')', close);
    assert(s.take(pos) =~= pre + "!["@ + alt);
    lemma_image_before(pre, alt, pos);
    assert((pre + "!["@ + alt).skip(pre.len() + 2int) =~= alt);
    assert(after.subrange(11, close) =~= id);
    assert(s.take(pos + 2) =~= pre + "!["@ + alt + "]("@);
    assert(s.skip(pos + 2 + close) =~= ")"@ + post);
}

proof fn lemma_named(v: Seq<JiraAttachment>, alt: Seq<char>, k: int)
    requires
        0 <= k <= v.len(),
        alt.len() > 0,
        forall|i: int| 0 <= i < k ==> (#[trigger] v[i]).filename@ != alt,
        k < v.len() ==> v[k].filename@ == alt,
    ensures
        k < v.len() ==> media::named(v, alt) == Some(v[k]),
        k == v.len() ==> media::named(v, alt) is None,
    decreases k,
{
    if k > 0 {
        assert(v[0].filename@ != alt);
        let w = v.skip(1);
        assert forall|i: int| 0 <= i < k - 1 implies (#[trigger] w[i]).filename@ != alt by {
            assert(w[i] == v[i + 1]);
        }
        if k < v.len() {
            assert(w[k - 1] == v[k]);
        }
        lemma_named(w, alt, k - 1);
    }
}

proof fn lemma_with_id(v: Seq<JiraAttachment>, id: Seq<char>, k: int)
    requires
        0 <= k <= v.len(),
        forall|i: int| 0 <= i < k ==> (#[trigger] v[i]).id@ != id,
        k < v.len() ==> v[k].id@ == id,
    ensures
        k < v.len() ==> media::with_id(v, id) == Some(v[k]),
        k == v.len() ==> media::with_id(v, id) is None,
    decreases k,
{
    if k > 0 {
        assert(v[0].id@ != id);
        let w = v.skip(1);
        assert forall|i: int| 0 <= i < k - 1 implies (#[trigger] w[i]).id@ != id by {
            assert(w[i] == v[i + 1]);
        }
        if k < v.len() {
            assert(w[k - 1] == v[k]);
        }
        lemma_with_id(w, id, k - 1);
    }
}

/// An image in a text shows the first attachment that is named like its label, at the path
/// under which the space serves that attachment; what stands before it stays, and what
/// stands behind it is resolved in the same way.
pub proof fn lemma_named_image(
    pre: Seq<char>,
    alt: Seq<char>,
    id: Seq<char>,
    post: Seq<char>,
    v: Seq<JiraAttachment>,
    space: Seq<char>,
    k: int,
)
    requires
        alt.len() > 0,
        !alt.contains('['),
        !id.contains(')'),
        text::find_of(
            pre + "!["@ + alt + "](jira-media:"@ + id + ")"@ + post,
            "](jira-media:"@,
        ) == Some(pre.len() + 2 + alt.len() as int),
        0 <= k < v.len(),
        v[k].filename@ == alt,
        forall|i: int| 0 <= i < k ==> (#[trigger] v[i]).filename@ != alt,
    ensures
        resolved(pre + "!["@ + alt + "](jira-media:"@ + id + ")"@ + post, v, space) == pre + "!["@
            + alt + "]("@ + "/api/spaces/"@ + space + "/attachments/"@ + det(
            NS_JIRA,
            "attachment"@,
            v[k].id@,
        ) + resolved(")"@ + post, v, space),
{
    let s = pre + "!["@ + alt + "](jira-media:"@ + id + ")"@ + post;
    lemma_first_image(pre, alt, id, post);
    lemma_named(v, alt, k);
    let head = pre + "!["@ + alt + "]("@;
    let path = common::route_of(space, attachment_id(v[k]));
    let tail = resolved(")"@ + post, v, space);
    assert(resolved(s, v, space) == head + path + tail);
    assert(head + path + tail =~= pre + "!["@ + alt + "]("@ + "/api/spaces/"@ + space
        + "/attachments/"@ + det(NS_JIRA, "attachment"@, v[k].id@) + tail);
}

/// An image whose label no attachment is named like shows the first attachment with its
/// media id.
pub proof fn lemma_image_by_id(
    pre: Seq<char>,
    alt: Seq<char>,
    id: Seq<char>,
    post: Seq<char>,
    v: Seq<JiraAttachment>,
    space: Seq<char>,
    k: int,
)
    requires
        alt.len() > 0,
        !alt.contains('['),
        !id.contains(')'),
        text::find_of(
            pre + "!["@ + alt + "](jira-media:"@ + id + ")"@ + post,
            "](jira-media:"@,
        ) == Some(pre.len() + 2 + alt.len() as int),
        forall|i: int| 0 <= i < v.len() ==> (#[trigger] v[i]).filename@ != alt,
        0 <= k < v.len(),
        v[k].id@ == id,
        forall|i: int| 0 <= i < k ==> (#[trigger] v[i]).id@ != id,
    ensures
        resolved(pre + "!["@ + alt + "](jira-media:"@ + id + ")"@ + post, v, space) == pre + "!["@
            + alt + "]("@ + "/api/spaces/"@ + space + "/attachments/"@ + det(
            NS_JIRA,
            "attachment"@,
            id,
        ) + resolved(")"@ + post, v, space),
{
    let s = pre + "!["@ + alt + "](jira-media:"@ + id + ")"@ + post;
    lemma_first_image(pre, alt, id, post);
    lemma_named(v, alt, v.len() as int);
    lemma_with_id(v, id, k);
    let head = pre + "!["@ + alt + "]("@;
    let path = common::route_of(space, attachment_id(v[k]));
    let tail = resolved(")"@ + post, v, space);
    assert(resolved(s, v, space) == head + path + tail);
    assert(head + path + tail =~= pre + "!["@ + alt + "]("@ + "/api/spaces/"@ + space
        + "/attachments/"@ + det(NS_JIRA, "attachment"@, id) + tail);
}

/// An image for which there is no attachment is left without a source and warned of; its
/// label stays.
pub proof fn lemma_image_without_source(
    pre: Seq<char>,
    alt: Seq<char>,
    id: Seq<char>,
    post: Seq<char>,
    v: Seq<JiraAttachment>,
    space: Seq<char>,
    key: Seq<char>,
)
    requires
        alt.len() > 0,
        !alt.contains('['),
        !id.contains(')'),
        text::find_of(
            pre + "!["@ + alt + "](jira-media:"@ + id + ")"@ + post,
            "](jira-media:"@,
        ) == Some(pre.len() + 2 + alt.len() as int),
        forall|i: int|
            0 <= i < v.len() ==> (#[trigger] v[i]).filename@ != alt && v[i].id@ != id,
    ensures
        resolved(pre + "!["@ + alt + "](jira-media:"@ + id + ")"@ + post, v, space) == pre + "!["@
            + alt + "]("@ + resolved(")"@ + post, v, space),
        media::image_warnings(pre + "!["@ + alt + "](jira-media:"@ + id + ")"@ + post, v, key)
            == seq![
            "issue "@ + key + ": inline media (alt="@ + text::debug_text(alt) + ", id="@ + id
                + ") had no matching attachment; image left without a source"@,
        ] + media::image_warnings(")"@ + post, v, key),
{
    let s = pre + "!["@ + alt + "](jira-media:"@ + id + ")"@ + post;
    lemma_first_image(pre, alt, id, post);
    assert forall|i: int| 0 <= i < v.len() implies (#[trigger] v[i]).id@ != id by {}
    lemma_named(v, alt, v.len() as int);
    lemma_with_id(v, id, v.len() as int);
    let head = pre + "!["@ + alt + "]("@;
    let none: Seq<char> = seq![];
    assert(head + none =~= head);
}

// ---------------------------------------------------------------------------
// Mentions
// ---------------------------------------------------------------------------

/// Whoever a node mentions is one of those whom a text mentions that holds the node: by
/// their account, and by their name without the sign before it.
pub proof fn lemma_mention_kept(
    n: Json,
    attrs: Json,
    account: Seq<char>,
    name: Seq<char>,
    shown: Seq<char>,
)
    requires
        json::as_text(json::get(n, "type"@)) == Some("mention"@),
        json::get(n, "attrs"@) == Some(attrs),
        json::as_text(json::get(attrs, "id"@)) == Some(account),
        account.len() > 0,
        json::as_text(json::get(attrs, "text"@)) == Some(shown),
        shown == "@"@ + name,
        name.len() > 0 ==> name[0] != '@',
    ensures
        users::mentions(n).contains(users::Person { account, name, email: None }),
{
    reveal_strlit("@");
    assert(shown[0] == '@');
    assert(shown.skip(1) =~= name);
    assert(users::without_ats(name) == name);
    assert(users::without_ats(shown) == name);
    let own = users::own_mention(n);
    assert(own =~= seq![users::Person { account, name, email: None }]);
    assert(users::mentions(n)[0] == own[0]);
}

/// Whom a part of a text mentions, the text mentions.
pub proof fn lemma_mention_within(n: Json, k: int, p: users::Person)
    requires
        adf::has_children(n),
        0 <= k < adf::children(n).len(),
        users::mentions(adf::children(n)[k]).contains(p),
    ensures
        users::mentions(n).contains(p),
{
    let own = users::own_mention(n);
    let all = users::all_mentions(adf::children(n));
    lemma_all_mentions(adf::children(n), k, p);
    let i = choose|i: int| 0 <= i < all.len() && all[i] == p;
    assert((own + all)[own.len() + i] == p);
}

proof fn lemma_all_mentions(v: Seq<Json>, k: int, p: users::Person)
    requires
        0 <= k < v.len(),
        users::mentions(v[k]).contains(p),
    ensures
        users::all_mentions(v).contains(p),
    decreases v.len(),
{
    let w = v.drop_last();
    let before = users::all_mentions(w);
    let last = users::mentions(v[v.len() - 1]);
    let all = users::all_mentions(v);
    if k < v.len() - 1 {
        assert(w[k] == v[k]);
        lemma_all_mentions(w, k, p);
        let i = choose|i: int| 0 <= i < before.len() && before[i] == p;
        assert(all[i] == p);
    } else {
        let i = choose|i: int| 0 <= i < last.len() && last[i] == p;
        assert(all[before.len() + i] == p);
    }
}

// ---------------------------------------------------------------------------
// The order of labels and values
// ---------------------------------------------------------------------------

/// The values of the label `Status` stand by category, what is to be done before what is
/// being done, and this before what is done; within a category they stand by name.
pub proof fn lemma_statuses_ordered(
    e: SpaceExport,
    p: JiraProject,
    v: Seq<JiraIssue>,
    now: Seq<char>,
    a: int,
    b: int,
)
    requires
        export_is(e, p, v, now),
        ids_apart(e.labels),
        0 <= a < v.len(),
        0 <= b < v.len(),
        v[a].fields.status.id@.len() > 0,
        v[b].fields.status.id@.len() > 0,
        forall|j: int|
            0 <= j < a ==> (#[trigger] v[j]).fields.status.id@ != v[a].fields.status.id@,
        forall|j: int|
            0 <= j < b ==> (#[trigger] v[j]).fields.status.id@ != v[b].fields.status.id@,
        ({
            let (x, y) = (v[a].fields.status, v[b].fields.status);
            let (c, d) = (x.status_category.key@, y.status_category.key@);
            ||| c == "new"@ && (d == "indeterminate"@ || d == "done"@)
            ||| c == "indeterminate"@ && d == "done"@
            ||| c == d && x.name@ != y.name@ && crate::order::lex_le(x.name@, y.name@)
        }),
    ensures
        common::before(
            text::texts(e.labels.definitions@[det(NS_JIRA, "label"@, "status"@)].values_order@),
            det(NS_JIRA, "status_value"@, v[a].fields.status.id@),
            det(NS_JIRA, "status_value"@, v[b].fields.status.id@),
        ),
{
    reveal_strlit("new");
    reveal_strlit("indeterminate");
    reveal_strlit("done");
    assert("new"@.len() == 3 && "indeterminate"@.len() == 13 && "done"@.len() == 4);
    let c = lemma_status_listed(v, a);
    let d = lemma_status_listed(v, b);
    lemma_positions(v);
    assert(status_candidates(v)[c].id == v[a].fields.status.id@);
    assert(status_candidates(v)[d].id == v[b].fields.status.id@);
    common::lemma_candidate_before(
        e.labels,
        label_list(v),
        label_id("status"@),
        0,
        NS_JIRA,
        "status_value"@,
        label_id("status"@),
        "Status"@,
        "circle"@,
        status_candidates(v),
        c,
        d,
    );
}

/// The values of the label `Priority` stand by the numbers that are their ids, the least
/// first.
pub proof fn lemma_priorities_ordered(
    e: SpaceExport,
    p: JiraProject,
    v: Seq<JiraIssue>,
    now: Seq<char>,
    a: int,
    b: int,
    x: nat,
    y: nat,
)
    requires
        export_is(e, p, v, now),
        ids_apart(e.labels),
        x < y <= i64::MAX,
        0 <= a < v.len(),
        0 <= b < v.len(),
        v[a].fields.priority is Some && v[a].fields.priority->0.id@ == text::decimal(x),
        v[b].fields.priority is Some && v[b].fields.priority->0.id@ == text::decimal(y),
        forall|j: int|
            0 <= j < a && (#[trigger] v[j]).fields.priority is Some ==> v[j].fields.priority->0.id@
                != text::decimal(x),
        forall|j: int|
            0 <= j < b && (#[trigger] v[j]).fields.priority is Some ==> v[j].fields.priority->0.id@
                != text::decimal(y),
    ensures
        common::before(
            text::texts(e.labels.definitions@[det(NS_JIRA, "label"@, "priority"@)].values_order@),
            det(NS_JIRA, "priority_value"@, text::decimal(x)),
            det(NS_JIRA, "priority_value"@, text::decimal(y)),
        ),
{
    text::lemma_decimal(x);
    text::lemma_decimal(y);
    text::lemma_parse_decimal(x, i64::MIN as int, i64::MAX as int);
    text::lemma_parse_decimal(y, i64::MIN as int, i64::MAX as int);
    let c = lemma_priority_listed(v, a);
    let d = lemma_priority_listed(v, b);
    lemma_positions(v);
    common::lemma_candidate_before(
        e.labels,
        label_list(v),
        label_id("status"@),
        status_label(v).len() as int,
        NS_JIRA,
        "priority_value"@,
        label_id("priority"@),
        "Priority"@,
        "flag"@,
        priority_candidates(v),
        c,
        d,
    );
}

/// The label `Status`, where there is one, is the primary one and stands first.
pub proof fn lemma_label_order(e: SpaceExport, p: JiraProject, v: Seq<JiraIssue>, now: Seq<char>)
    requires
        export_is(e, p, v, now),
        ids_apart(e.labels),
        status_candidates(v).len() > 0,
    ensures
        e.labels.primary_label_id is Some,
        e.labels.primary_label_id->0@ == det(NS_JIRA, "label"@, "status"@),
        e.labels.order@.len() >= 1,
        e.labels.order@[0]@ == det(NS_JIRA, "label"@, "status"@),
{
    lemma_positions(v);
    let l = label_list(v);
    assert(status_label(v).len() == 1);
    let order = text::texts(e.labels.order@);
    assert(common::labels_view(e.labels) == common::labels_of(l, label_id("status"@)));
    assert(order == common::label_ids(l));
    assert(l.len() >= 1 && order.len() == l.len());
    assert(order[0] == l[0].id);
    assert(status_label(v)[0] == l[0]);
    assert(l[0].id == label_id("status"@));
    common::lemma_label_map(l, 0);
    assert(order[0] == e.labels.order@[0]@);
}

// ---------------------------------------------------------------------------
// Links that lead out of the import
// ---------------------------------------------------------------------------

/// Whether a link leads to an issue that is not imported, be it by its id or by its key.
pub open spec fn leads_out(l: conversion::LinkRef, v: Seq<JiraIssue>) -> bool {
    &&& l.link.outward_issue is Some
    &&& forall|i: int|
        0 <= i < v.len() ==> (#[trigger] v[i]).id@ != l.link.outward_issue->0.id@ && v[i].key@
            != l.link.outward_issue->0.key@
}

proof fn lemma_key_found(v: Seq<JiraIssue>, key: Seq<char>)
    ensures
        conversion::id_for_key(v, key) is None <==> forall|i: int|
            0 <= i < v.len() ==> (#[trigger] v[i]).key@ != key,
{
    let keys = conversion::issue_keys(v);
    lemma_index_of(keys, key);
    match index_of(keys, key) {
        Some(k) => {
            assert(keys[k] == v[k].key@);
        },
        None => {
            assert forall|i: int| 0 <= i < v.len() implies (#[trigger] v[i]).key@ != key by {
                assert(keys[i] == v[i].key@);
            }
        },
    }
}

proof fn lemma_leads_out(l: conversion::LinkRef, v: Seq<JiraIssue>)
    ensures
        leads_out(l, v) <==> l.link.outward_issue is Some && link_target(l, v) is None,
{
    if let Some(o) = l.link.outward_issue {
        let ids = issue_ids(v);
        lemma_key_found(v, o.key@);
        if leads_out(l, v) {
            assert(!ids.contains(o.id@)) by {
                if ids.contains(o.id@) {
                    let i = choose|i: int| 0 <= i < ids.len() && ids[i] == o.id@;
                    assert(v[i].id@ == o.id@);
                }
            }
            assert forall|i: int| 0 <= i < v.len() implies (#[trigger] v[i]).key@ != o.key@ by {}
        }
        if link_target(l, v) is None {
            assert forall|i: int| 0 <= i < v.len() implies (#[trigger] v[i]).id@ != o.id@
                && v[i].key@ != o.key@ by {
                assert(ids[i] == v[i].id@);
            }
        }
    }
}

proof fn lemma_dropped(l: Seq<conversion::LinkRef>, v: Seq<JiraIssue>)
    ensures
        conversion::dropped_links(l, v) == l.filter(
            |x: conversion::LinkRef| leads_out(x, v),
        ).len(),
    decreases l.len(),
{
    reveal(Seq::filter);
    if l.len() > 0 {
        lemma_dropped(l.drop_last(), v);
        lemma_leads_out(l.last(), v);
    }
}

/// Links that lead out of the import are counted in a warning.
pub proof fn lemma_links_warned(
    c: JiraConversion,
    p: JiraProject,
    v: Seq<JiraIssue>,
    now: Seq<char>,
)
    requires
        is_conversion(c, p, v, now),
    ensures
        ({
            let n = links(v).filter(|x: conversion::LinkRef| leads_out(x, v)).len();
            0 < n <= usize::MAX ==> text::texts(c.warnings@).contains(
                text::decimal(n)
                    + " issue link(s) referenced an issue outside the import and were dropped"@,
            )
        }),
{
    lemma_dropped(links(v), v);
    let n = links(v).filter(|x: conversion::LinkRef| leads_out(x, v)).len();
    let all = text::texts(c.warnings@);
    let first = conversion::item_warnings(v);
    if 0 < n <= usize::MAX {
        assert(all[first.len() as int] == text::decimal(n)
            + " issue link(s) referenced an issue outside the import and were dropped"@);
    }
}

} // verus!
