//! What a conversion keeps of a Linear team, field by field.

use vstd::prelude::*;

use crate::codec;
use crate::export::types::SpaceExport;
use crate::import::convert::common::{
    self, CandidateView, Gathered, LabelView, content_is, defines, det, ids_apart, known,
    label_for, lemma_candidate_defined, lemma_index_of, route_of,
};
use crate::import::convert::linear::conversion::{
    self, comment_is, comments_are, comments_on, cycle_is, document_is, export_is, issue_ids,
    item_fields, user_is,
};
use crate::import::convert::linear::labels::{
    self, child_ids, estimate_candidates, fixed_labels, group_candidates, group_ids, group_labels,
    in_tshirt_sizes, issue_labels, label_id, label_list, label_refs, parents_of,
    priority_candidates, project_candidates, state_candidates, tag_candidates, tags_label,
    with_nodes,
};
use crate::import::convert::linear::laws::{lemma_group_offers, lemma_member, lemma_parents};
use crate::import::convert::linear::uploads::{self, rewritten};
use crate::import::convert::linear::{
    LinearComment, LinearIssue, LinearLabelRef, LinearProject, LinearProjectMilestone, LinearRef,
    LinearRelation, LinearUser, LinearWorkspace, NS_LINEAR,
};
use crate::text;

verus! {

/// Whether a text is the id, of the given kind, of what the reference refers to.
pub open spec fn refers(o: Option<String>, kind: Seq<char>, r: Option<LinearRef>) -> bool {
    match r {
        Some(x) => o is Some && o->0@ == det(NS_LINEAR, kind, x.id@),
        None => o is None,
    }
}

/// Whether two optional texts are the same.
pub open spec fn same_text(a: Option<String>, b: Option<String>) -> bool {
    match b {
        Some(s) => a is Some && a->0@ == s@,
        None => a is None,
    }
}

/// The space is that of the team: its id comes from the team's, and its name, its slug
/// and the prefix of its short ids from the team's name and key.
pub proof fn lemma_space_kept(e: SpaceExport, src: LinearWorkspace, now: Seq<char>)
    requires
        export_is(e, src, now),
    ensures
        e.format@ == "wodo-space-export-v2"@,
        e.exported_at@ == now,
        e.space.id@ == det(NS_LINEAR, "space"@, src.team.id@),
        src.team.name@.len() > 0 ==> e.space.name@ == src.team.name@,
        src.team.name@.len() == 0 ==> e.space.name@ == src.team.key@,
        e.space.slug@ == common::slug_of(e.space.name@),
        e.space.region@ == "eu"@,
        e.space.short_id_prefix is Some,
        e.space.short_id_prefix->0@ == src.team.key@,
        e.space.short_id_visible,
        e.space.created_at@ == now,
        e.teams@.len() == 0,
        e.cycle_config is None,
        e.archive_config is None,
        e.overview_text is None,
        e.overview_yjs is None,
{
}

/// Every issue becomes the item at its position, with its own number, title, dates and
/// times, and with the ids that come from those it refers to: its assignee, its creator,
/// its parent, its cycle and its milestone.
pub proof fn lemma_issue_kept(e: SpaceExport, src: LinearWorkspace, now: Seq<char>, k: int)
    requires
        export_is(e, src, now),
        0 <= k < src.issues@.len(),
    ensures
        e.items@.len() == src.issues@.len(),
        ({
            let (o, i) = (e.items@[k], src.issues@[k]);
            &&& o.id@ == det(NS_LINEAR, "item"@, i.id@)
            &&& o.short_id == Some(i.number)
            &&& o.title@ == i.title@
            &&& same_text(o.due_date, i.due_date)
            &&& same_text(o.start_date, i.started_at)
            &&& same_text(o.created_at, i.created_at)
            &&& same_text(o.updated_at, i.updated_at)
            &&& same_text(o.archived_at, i.archived_at)
            &&& o.archived == (i.archived_at is Some)
            &&& !o.deep_archived
            &&& refers(o.created_by, "user"@, i.creator)
            &&& refers(o.parent_id, "item"@, i.parent)
            &&& refers(o.cycle_id, "cycle"@, i.cycle)
            &&& refers(o.milestone_id, "milestone"@, i.project_milestone)
            &&& (match i.assignee {
                Some(u) => o.assignee_user_ids@.len() == 1 && o.assignee_user_ids@[0]@ == det(
                    NS_LINEAR,
                    "user"@,
                    u.id@,
                ),
                None => o.assignee_user_ids@.len() == 0,
            })
            &&& o.assignee_team_ids@.len() == 0
            &&& o.completion_prompt is None
            &&& o.completion_note_text is None
            &&& o.completion_note_yjs is None
        }),
{
    let (o, i) = (e.items@[k], src.issues@[k]);
    assert(item_fields(o, i, src, conversion::space_of(src)));
    let ids = text::texts(o.assignee_user_ids@);
    assert(ids.len() == o.assignee_user_ids@.len());
    if ids.len() > 0 {
        assert(ids[0] == o.assignee_user_ids@[0]@);
    }
}

/// The description of an issue that is not blank is that of its item, as text and as rich
/// text, with the links to uploaded files rewritten; a blank one is dropped.
pub proof fn lemma_description_kept(e: SpaceExport, src: LinearWorkspace, now: Seq<char>, k: int)
    requires
        export_is(e, src, now),
        0 <= k < src.issues@.len(),
    ensures
        ({
            let (o, i) = (e.items@[k], src.issues@[k]);
            match i.description {
                Some(d) => if text::trim_of(d@).len() > 0 {
                    &&& o.description_text is Some
                    &&& o.description_text->0@ == rewritten(d@, e.space.id@)
                    &&& content_is(o.description_yjs, rewritten(d@, e.space.id@))
                } else {
                    o.description_text is None && o.description_yjs is None
                },
                None => o.description_text is None && o.description_yjs is None,
            }
        }),
{
    assert(item_fields(e.items@[k], src.issues@[k], src, conversion::space_of(src)));
}

/// Every cycle is exported at its position, from its start to its end, under its own name
/// or, where that is blank, under one from its number.
pub proof fn lemma_cycle_kept(e: SpaceExport, src: LinearWorkspace, now: Seq<char>, k: int)
    requires
        export_is(e, src, now),
        0 <= k < src.cycles@.len(),
    ensures
        e.cycles@.len() == src.cycles@.len(),
        ({
            let (o, c) = (e.cycles@[k], src.cycles@[k]);
            &&& o.id@ == det(NS_LINEAR, "cycle"@, c.id@)
            &&& o.start_date@ == (match c.starts_at {
                Some(s) => s@,
                None => ""@,
            })
            &&& o.end_date@ == (match c.ends_at {
                Some(s) => s@,
                None => ""@,
            })
            &&& !o.archived
            &&& c.name is Some && text::trim_of(c.name->0@).len() > 0 ==> o.name@ == c.name->0@
            &&& c.name is None || text::trim_of(c.name->0@).len() == 0 ==> o.name@ == (
            match c.number {
                Some(n) => "Cycle "@ + text::int_text_of(n as int),
                None => "Cycle"@,
            })
        }),
{
    assert(cycle_is(e.cycles@[k], src.cycles@[k]));
}

/// Every user is exported at their position, with their name and their address.
pub proof fn lemma_user_kept(e: SpaceExport, src: LinearWorkspace, now: Seq<char>, k: int)
    requires
        export_is(e, src, now),
        0 <= k < src.users@.len(),
    ensures
        e.users@.len() == src.users@.len(),
        e.users@[k].id@ == det(NS_LINEAR, "user"@, src.users@[k].id@),
        src.users@[k].name@.len() > 0 ==> e.users@[k].display_name@ == src.users@[k].name@,
        src.users@[k].name@.len() == 0 ==> e.users@[k].display_name@ == "Unknown user"@,
        same_text(e.users@[k].email, src.users@[k].email),
{
    assert(user_is(e.users@[k], src.users@[k]));
}

/// Every document is exported at its position, with its title, its text and its times,
/// and belongs to nothing else.
pub proof fn lemma_document_kept(e: SpaceExport, src: LinearWorkspace, now: Seq<char>, k: int)
    requires
        export_is(e, src, now),
        0 <= k < src.documents@.len(),
    ensures
        e.documents@.len() == src.documents@.len(),
        ({
            let (o, d) = (e.documents@[k], src.documents@[k]);
            let body = rewritten(
                match d.content {
                    Some(s) => s@,
                    None => ""@,
                },
                e.space.id@,
            );
            &&& o.id@ == det(NS_LINEAR, "document"@, d.id@)
            &&& o.title@ == d.title@
            &&& text::trim_of(body).len() > 0 ==> o.content_text is Some && o.content_text->0@
                == body
            &&& text::trim_of(body).len() == 0 ==> o.content_text is None
            &&& content_is(o.content_yjs, body)
            &&& same_text(o.created_at, d.created_at)
            &&& same_text(o.updated_at, d.updated_at)
            &&& refers(o.created_by, "user"@, d.creator)
            &&& !o.archived && o.archived_at is None
            &&& o.owner_user_ids@.len() == 0 && o.owner_team_ids@.len() == 0
            &&& o.parent_item_id is None && o.parent_milestone_id is None
            &&& o.review_cadence_days is None && o.last_reviewed_at is None
            &&& !o.is_template && o.forked_from is None
            &&& forall|l: Seq<char>| !(#[trigger] o.labels@.contains_key(l))
        }),
{
    assert(document_is(e.documents@[k], src.documents@[k], conversion::space_of(src)));
}

// ---------------------------------------------------------------------------
// Labels
// ---------------------------------------------------------------------------

spec fn status_label(src: LinearWorkspace) -> Seq<LabelView> {
    label_for(
        NS_LINEAR,
        "status_value"@,
        label_id("status"@),
        "Status"@,
        "circle"@,
        state_candidates(src.workflow_states@),
    )
}

spec fn priority_label() -> Seq<LabelView> {
    label_for(
        NS_LINEAR,
        "priority_value"@,
        label_id("priority"@),
        "Priority"@,
        "flag"@,
        priority_candidates(),
    )
}

spec fn estimate_label(src: LinearWorkspace) -> Seq<LabelView> {
    label_for(
        NS_LINEAR,
        "estimate_value"@,
        label_id("estimate"@),
        "Estimate"@,
        "gauge"@,
        estimate_candidates(src.issues@, in_tshirt_sizes(src.team)),
    )
}

spec fn project_label(src: LinearWorkspace) -> Seq<LabelView> {
    label_for(
        NS_LINEAR,
        "project_value"@,
        label_id("project"@),
        "Project"@,
        "folder"@,
        project_candidates(src.projects@),
    )
}

/// Where the labels stand in the list of all of them.
proof fn lemma_positions(src: LinearWorkspace)
    ensures
        ({
            let l = label_list(src);
            let (a, b, c, d) = (
                status_label(src),
                priority_label(),
                estimate_label(src),
                project_label(src),
            );
            let refs = label_refs(src);
            let (g, t) = (group_labels(group_ids(refs), refs), tags_label(refs));
            let n = (a.len() + b.len() + c.len() + d.len()) as int;
            &&& a.len() <= 1 && b.len() == 1 && c.len() <= 1 && d.len() <= 1 && t.len() <= 1
            &&& l.len() == n + g.len() + t.len()
            &&& a.len() > 0 ==> a == seq![l[0]]
            &&& b == seq![l[a.len() as int]]
            &&& c.len() > 0 ==> c == seq![l[(a.len() + b.len()) as int]]
            &&& d.len() > 0 ==> d == seq![l[(a.len() + b.len() + c.len()) as int]]
            &&& t.len() > 0 ==> t == seq![l[n + g.len()]]
            &&& forall|i: int| 0 <= i < g.len() ==> #[trigger] g[i] == l[n + i]
        }),
{
    let l = label_list(src);
    let (a, b, c, d) = (
        status_label(src),
        priority_label(),
        estimate_label(src),
        project_label(src),
    );
    let refs = label_refs(src);
    let (g, t) = (group_labels(group_ids(refs), refs), tags_label(refs));
    let n = (a.len() + b.len() + c.len() + d.len()) as int;
    assert(fixed_labels(src) == a + b + c + d);
    assert(l == a + b + c + d + g + t);
    if a.len() > 0 {
        assert(a =~= seq![l[0]]);
    }
    assert(b =~= seq![l[a.len() as int]]);
    if c.len() > 0 {
        assert(c =~= seq![l[(a.len() + b.len()) as int]]);
    }
    if d.len() > 0 {
        assert(d =~= seq![l[(a.len() + b.len() + c.len()) as int]]);
    }
    if t.len() > 0 {
        assert(t =~= seq![l[n + g.len()]]);
    }
}

/// Which entries of the labels of an issue its own labels leave as they are.
proof fn lemma_nodes_frame(
    m: Map<Seq<char>, Seq<char>>,
    nodes: Seq<LinearLabelRef>,
    parents: Map<Seq<char>, Seq<char>>,
    tags: Seq<CandidateView>,
    x: Seq<char>,
)
    requires
        forall|id: Seq<char>| #[trigger]
            parents.contains_key(id) ==> det(NS_LINEAR, "group_label"@, parents[id]) != x,
        tags.len() > 0 ==> label_id("tags"@) != x,
    ensures
        with_nodes(m, nodes, parents, tags).contains_key(x) == m.contains_key(x),
        m.contains_key(x) ==> with_nodes(m, nodes, parents, tags)[x] == m[x],
    decreases nodes.len(),
{
    if nodes.len() > 0 {
        lemma_nodes_frame(m, nodes.drop_last(), parents, tags, x);
    }
}

/// A group that has labels has a label among those for groups.
proof fn lemma_group_listed(src: LinearWorkspace, id: Seq<char>) -> (g: int)
    requires
        parents_of(label_refs(src)).contains_key(id),
    ensures
        ({
            let refs = label_refs(src);
            let all = group_labels(group_ids(refs), refs);
            0 <= g < all.len() && all[g].id == det(
                NS_LINEAR,
                "group_label"@,
                parents_of(refs)[id],
            )
        }),
{
    let refs = label_refs(src);
    let group = parents_of(refs)[id];
    lemma_parents(refs, id);
    let k = choose|k: int| 0 <= k < child_ids(refs).len() && child_ids(refs)[k] == id;
    lemma_member(child_ids(refs), refs, group, k);
    let groups = group_ids(refs);
    let j = choose|j: int| 0 <= j < groups.len() && groups[j] == group;
    lemma_group_offers(groups, refs, j, id);
    let all = group_labels(groups, refs);
    let label = det(NS_LINEAR, "group_label"@, group);
    choose|g: int|
        0 <= g < all.len() && (#[trigger] all[g]).id == label && all[g].values.contains_key(
            det(NS_LINEAR, "group_value"@, id),
        )
}

proof fn lemma_estimate_listed(v: Seq<LinearIssue>, tshirt: bool, k: int)
    requires
        0 <= k < v.len(),
        labels::estimate_of(v[k]) is Some,
    ensures
        exists|c: int|
            0 <= c < estimate_candidates(v, tshirt).len() && #[trigger] estimate_candidates(
                v,
                tshirt,
            )[c].id == text::int_text_of(labels::estimate_of(v[k])->0 as int),
    decreases v.len(),
{
    let rest = estimate_candidates(v.drop_last(), tshirt);
    let all = estimate_candidates(v, tshirt);
    let id = text::int_text_of(labels::estimate_of(v[k])->0 as int);
    assert(id.len() > 0);
    if k < v.len() - 1 {
        assert(v.drop_last()[k] == v[k]);
        lemma_estimate_listed(v.drop_last(), tshirt, k);
        let c = choose|c: int| 0 <= c < rest.len() && #[trigger] rest[c].id == id;
        assert(all[c] == rest[c]);
    } else {
        let own = labels::estimate_candidate(labels::estimate_of(v[k])->0 as int, tshirt);
        if known(rest, id) {
            let c = choose|c: int| 0 <= c < rest.len() && (#[trigger] rest[c]).id == id;
            assert(all[c].id == id);
        } else {
            assert(all[rest.len() as int] == own);
        }
    }
}

/// Every estimate that is offered is that of an issue.
proof fn lemma_estimate_used(v: Seq<LinearIssue>, tshirt: bool, c: int) -> (k: int)
    requires
        0 <= c < estimate_candidates(v, tshirt).len(),
    ensures
        0 <= k < v.len(),
        labels::estimate_of(v[k]) is Some,
        estimate_candidates(v, tshirt)[c] == labels::estimate_candidate(
            labels::estimate_of(v[k])->0 as int,
            tshirt,
        ),
    decreases v.len(),
{
    let rest = estimate_candidates(v.drop_last(), tshirt);
    if v.len() > 0 && c < rest.len() {
        let k = lemma_estimate_used(v.drop_last(), tshirt, c);
        assert(v.drop_last()[k] == v[k]);
        k
    } else {
        v.len() - 1
    }
}

/// The labels of an issue hold its state, its priority, its estimate and its project.
proof fn lemma_fixed_values(src: LinearWorkspace, k: int)
    requires
        common::label_ids(label_list(src)).no_duplicates(),
        0 <= k < src.issues@.len(),
    ensures
        ({
            let i = src.issues@[k];
            let m = issue_labels(i, src);
            &&& i.state is Some && known(state_candidates(src.workflow_states@), i.state->0.id@)
                ==> m.contains_key(label_id("status"@)) && m[label_id("status"@)] == det(
                NS_LINEAR,
                "status_value"@,
                i.state->0.id@,
            )
            &&& 1 <= i.priority <= 4 ==> m.contains_key(label_id("priority"@)) && m[label_id(
                "priority"@,
            )] == det(NS_LINEAR, "priority_value"@, text::int_text_of(i.priority as int))
            &&& !(1 <= i.priority <= 4) ==> !m.contains_key(label_id("priority"@))
            &&& labels::estimate_of(i) is Some ==> m.contains_key(label_id("estimate"@))
                && m[label_id("estimate"@)] == det(
                NS_LINEAR,
                "estimate_value"@,
                text::int_text_of(labels::estimate_of(i)->0 as int),
            )
            &&& i.project is Some && known(project_candidates(src.projects@), i.project->0.id@)
                ==> m.contains_key(label_id("project"@)) && m[label_id("project"@)] == det(
                NS_LINEAR,
                "project_value"@,
                i.project->0.id@,
            )
        }),
{
    lemma_fixed_apart(src);
    let i = src.issues@[k];
    let refs = label_refs(src);
    let m0 = Map::<Seq<char>, Seq<char>>::empty();
    let m1 = match i.state {
        Some(s) => if known(state_candidates(src.workflow_states@), s.id@) {
            m0.insert(label_id("status"@), det(NS_LINEAR, "status_value"@, s.id@))
        } else {
            m0
        },
        None => m0,
    };
    let m2 = if 1 <= i.priority <= 4 {
        m1.insert(
            label_id("priority"@),
            det(NS_LINEAR, "priority_value"@, text::int_text_of(i.priority as int)),
        )
    } else {
        m1
    };
    let m3 = match labels::estimate_of(i) {
        Some(n) => m2.insert(
            label_id("estimate"@),
            det(NS_LINEAR, "estimate_value"@, text::int_text_of(n as int)),
        ),
        None => m2,
    };
    let m4 = match i.project {
        Some(p) => if known(project_candidates(src.projects@), p.id@) {
            m3.insert(label_id("project"@), det(NS_LINEAR, "project_value"@, p.id@))
        } else {
            m3
        },
        None => m3,
    };
    let (parents, tags) = (parents_of(refs), tag_candidates(refs));
    assert(issue_labels(i, src) == with_nodes(m4, i.labels.nodes@, parents, tags));
    if labels::estimate_of(i) is Some {
        lemma_estimate_listed(src.issues@, in_tshirt_sizes(src.team), k);
        lemma_nodes_frame(m4, i.labels.nodes@, parents, tags, label_id("estimate"@));
    }
    lemma_nodes_frame(m4, i.labels.nodes@, parents, tags, label_id("priority"@));
    if i.state is Some && known(state_candidates(src.workflow_states@), i.state->0.id@) {
        lemma_nodes_frame(m4, i.labels.nodes@, parents, tags, label_id("status"@));
    }
    if i.project is Some && known(project_candidates(src.projects@), i.project->0.id@) {
        lemma_nodes_frame(m4, i.labels.nodes@, parents, tags, label_id("project"@));
    }
}

/// The ids of the fixed labels are all different, and none is that of a group or of the
/// tags.
proof fn lemma_fixed_apart(src: LinearWorkspace)
    requires
        common::label_ids(label_list(src)).no_duplicates(),
    ensures
        ({
            let (s, p, e, j, t) = (
                label_id("status"@),
                label_id("priority"@),
                label_id("estimate"@),
                label_id("project"@),
                label_id("tags"@),
            );
            let refs = label_refs(src);
            let has_s = status_label(src).len() > 0;
            let has_e = estimate_label(src).len() > 0;
            let has_j = project_label(src).len() > 0;
            let has_t = tag_candidates(refs).len() > 0;
            &&& has_s ==> s != p
            &&& has_s && has_e ==> s != e
            &&& has_s && has_j ==> s != j
            &&& has_s && has_t ==> s != t
            &&& has_e ==> p != e
            &&& has_j ==> p != j
            &&& has_t ==> p != t
            &&& has_e && has_j ==> e != j
            &&& has_e && has_t ==> e != t
            &&& has_j && has_t ==> j != t
            &&& forall|id: Seq<char>| #[trigger]
                parents_of(refs).contains_key(id) ==> {
                    let g = det(NS_LINEAR, "group_label"@, parents_of(refs)[id]);
                    &&& has_s ==> g != s
                    &&& g != p
                    &&& has_e ==> g != e
                    &&& has_j ==> g != j
                }
        }),
{
    lemma_positions(src);
    let l = label_list(src);
    let ids = common::label_ids(l);
    let refs = label_refs(src);
    let (a, b, c, d) = (
        status_label(src),
        priority_label(),
        estimate_label(src),
        project_label(src),
    );
    let g = group_labels(group_ids(refs), refs);
    let n = (a.len() + b.len() + c.len() + d.len()) as int;
    assert(b[0].id == label_id("priority"@));
    assert(ids[a.len() as int] == label_id("priority"@));
    if a.len() > 0 {
        assert(a[0].id == label_id("status"@));
        assert(ids[0] == label_id("status"@));
    }
    if c.len() > 0 {
        assert(c[0].id == label_id("estimate"@));
        assert(ids[(a.len() + b.len()) as int] == label_id("estimate"@));
    }
    if d.len() > 0 {
        assert(d[0].id == label_id("project"@));
        assert(ids[(a.len() + b.len() + c.len()) as int] == label_id("project"@));
    }
    if tag_candidates(refs).len() > 0 {
        assert(tags_label(refs)[0].id == label_id("tags"@));
        assert(ids[n + g.len()] == label_id("tags"@));
    }
    assert forall|id: Seq<char>| #[trigger] parents_of(refs).contains_key(id) implies {
        let x = det(NS_LINEAR, "group_label"@, parents_of(refs)[id]);
        &&& a.len() > 0 ==> x != label_id("status"@)
        &&& x != label_id("priority"@)
        &&& c.len() > 0 ==> x != label_id("estimate"@)
        &&& d.len() > 0 ==> x != label_id("project"@)
    } by {
        let k = lemma_group_listed(src, id);
        assert(g[k] == l[n + k]);
        assert(ids[n + k] == g[k].id);
    }
}

/// What an item has of the label with the given id.
pub open spec fn value_of(e: SpaceExport, k: int, label: Seq<char>) -> Option<Seq<char>> {
    if e.items@[k].labels@.contains_key(label) {
        Some(e.items@[k].labels@[label]@)
    } else {
        None
    }
}

/// An issue with the priority 1, 2, 3 or 4 becomes an item whose value of the label
/// `Priority` is `Urgent`, `High`, `Medium` or `Low`; any other issue has no value of it.
/// No two labels and no two values of a label may share an id.
pub proof fn lemma_priority_kept(e: SpaceExport, src: LinearWorkspace, now: Seq<char>, k: int)
    requires
        export_is(e, src, now),
        ids_apart(e.labels),
        0 <= k < src.issues@.len(),
    ensures
        ({
            let label = det(NS_LINEAR, "label"@, "priority"@);
            let p = src.issues@[k].priority;
            let v = value_of(e, k, label);
            &&& v is Some <==> 1 <= p <= 4
            &&& p == 1 ==> defines(
                e.labels,
                label,
                "Priority"@,
                v->0,
                "Urgent"@,
                "#EF4444"@,
                false,
            )
            &&& p == 2 ==> defines(
                e.labels,
                label,
                "Priority"@,
                v->0,
                "High"@,
                "#F97316"@,
                false,
            )
            &&& p == 3 ==> defines(
                e.labels,
                label,
                "Priority"@,
                v->0,
                "Medium"@,
                "#EAB308"@,
                false,
            )
            &&& p == 4 ==> defines(
                e.labels,
                label,
                "Priority"@,
                v->0,
                "Low"@,
                "#6B7280"@,
                false,
            )
        }),
{
    lemma_ids(e, src, now);
    lemma_fixed_values(src, k);
    lemma_positions(src);
    lemma_item_labels(e, src, now, k);
    let p = src.issues@[k].priority;
    if 1 <= p <= 4 {
        lemma_candidate_defined(
            e.labels,
            label_list(src),
            label_id("status"@),
            status_label(src).len() as int,
            NS_LINEAR,
            "priority_value"@,
            label_id("priority"@),
            "Priority"@,
            "flag"@,
            priority_candidates(),
            p - 1,
        );
    }
}

proof fn lemma_ids(e: SpaceExport, src: LinearWorkspace, now: Seq<char>)
    requires
        export_is(e, src, now),
        ids_apart(e.labels),
    ensures
        common::label_ids(label_list(src)).no_duplicates(),
{
    assert(common::labels_view(e.labels).order == common::label_ids(label_list(src)));
}

proof fn lemma_item_labels(e: SpaceExport, src: LinearWorkspace, now: Seq<char>, k: int)
    requires
        export_is(e, src, now),
        0 <= k < src.issues@.len(),
    ensures
        forall|l: Seq<char>| #[trigger]
            issue_labels(src.issues@[k], src).contains_key(l)
                <==> e.items@[k].labels@.contains_key(l),
        forall|l: Seq<char>|
            issue_labels(src.issues@[k], src).contains_key(l) ==> #[trigger] issue_labels(
                src.issues@[k],
                src,
            )[l] == e.items@[k].labels@[l]@,
{
    assert(item_fields(e.items@[k], src.issues@[k], src, conversion::space_of(src)));
    assert(common::text_map(e.items@[k].labels@) == issue_labels(src.issues@[k], src));
}

/// The last state with its id is a value of the label `Status`, under its own name, in its
/// own color or in gray, which completes an item exactly where its type is that of
/// completed, canceled or duplicate issues. An issue in that state has that value.
pub proof fn lemma_state_kept(e: SpaceExport, src: LinearWorkspace, now: Seq<char>, c: int, k: int)
    requires
        export_is(e, src, now),
        ids_apart(e.labels),
        0 <= c < src.workflow_states@.len(),
        0 <= k < src.issues@.len(),
    ensures
        ({
            let label = det(NS_LINEAR, "label"@, "status"@);
            let s = src.workflow_states@[c];
            let value = det(NS_LINEAR, "status_value"@, s.id@);
            &&& defines(
                e.labels,
                label,
                "Status"@,
                value,
                s.name@,
                match s.color {
                    Some(x) => x@,
                    None => "#6B7280"@,
                },
                s.state_type@ == "completed"@ || s.state_type@ == "canceled"@ || s.state_type@
                    == "duplicate"@,
            )
            &&& src.issues@[k].state is Some && src.issues@[k].state->0.id@ == s.id@ ==> value_of(
                e,
                k,
                label,
            ) == Some(value)
        }),
{
    lemma_ids(e, src, now);
    lemma_fixed_values(src, k);
    lemma_positions(src);
    lemma_item_labels(e, src, now, k);
    let v = state_candidates(src.workflow_states@);
    assert(v[c].id == src.workflow_states@[c].id@);
    lemma_candidate_defined(
        e.labels,
        label_list(src),
        label_id("status"@),
        0,
        NS_LINEAR,
        "status_value"@,
        label_id("status"@),
        "Status"@,
        "circle"@,
        v,
        c,
    );
}

/// Every project is a value of the label `Project`, under its own name, and an issue of
/// the project has that value.
pub proof fn lemma_project_kept(
    e: SpaceExport,
    src: LinearWorkspace,
    now: Seq<char>,
    c: int,
    k: int,
)
    requires
        export_is(e, src, now),
        ids_apart(e.labels),
        0 <= c < src.projects@.len(),
        0 <= k < src.issues@.len(),
    ensures
        ({
            let label = det(NS_LINEAR, "label"@, "project"@);
            let p = src.projects@[c];
            let value = det(NS_LINEAR, "project_value"@, p.id@);
            &&& defines(e.labels, label, "Project"@, value, p.name@, "#6B7280"@, false)
            &&& src.issues@[k].project is Some && src.issues@[k].project->0.id@ == p.id@
                ==> value_of(e, k, label) == Some(value)
        }),
{
    lemma_ids(e, src, now);
    lemma_fixed_values(src, k);
    lemma_positions(src);
    lemma_item_labels(e, src, now, k);
    let v = project_candidates(src.projects@);
    assert(v[c].id == src.projects@[c].id@);
    let n = (status_label(src).len() + priority_label().len() + estimate_label(src).len()) as int;
    lemma_candidate_defined(
        e.labels,
        label_list(src),
        label_id("status"@),
        n,
        NS_LINEAR,
        "project_value"@,
        label_id("project"@),
        "Project"@,
        "folder"@,
        v,
        c,
    );
}

/// An issue with an estimate that is not zero has a value of the label `Estimate`, which
/// is named by the number of units or, in a team that estimates in T-shirt sizes, by the
/// size: XS for 1, S for 2, M for 3, L for 5, XL for 8, XXL for 13 and XXXL for 21. An
/// issue whose estimate is zero, or that has none, has no such value.
pub proof fn lemma_estimate_kept(e: SpaceExport, src: LinearWorkspace, now: Seq<char>, k: int)
    requires
        export_is(e, src, now),
        ids_apart(e.labels),
        0 <= k < src.issues@.len(),
        src.issues@[k].estimate is Some,
        !src.issues@[k].estimate->0.is_zero,
    ensures
        ({
            let label = det(NS_LINEAR, "label"@, "estimate"@);
            let n = src.issues@[k].estimate->0.units as int;
            let sizes = src.team.issue_estimation_type is Some && common::lowered(
                src.team.issue_estimation_type->0@,
            ) == "tshirt"@;
            let v = value_of(e, k, label);
            &&& v is Some
            &&& exists|name: Seq<char>| #[trigger]
                defines(e.labels, label, "Estimate"@, v->0, name, "#6B7280"@, false) && {
                    &&& !sizes ==> name == text::int_text_of(n)
                    &&& sizes && n == 1 ==> name == "XS"@
                    &&& sizes && n == 2 ==> name == "S"@
                    &&& sizes && n == 3 ==> name == "M"@
                    &&& sizes && n == 5 ==> name == "L"@
                    &&& sizes && n == 8 ==> name == "XL"@
                    &&& sizes && n == 13 ==> name == "XXL"@
                    &&& sizes && n == 21 ==> name == "XXXL"@
                    &&& sizes && n != 1 && n != 2 && n != 3 && n != 5 && n != 8 && n != 13 && n
                        != 21 ==> name == text::int_text_of(n)
                }
        }),
{
    lemma_ids(e, src, now);
    lemma_fixed_values(src, k);
    lemma_positions(src);
    lemma_item_labels(e, src, now, k);
    let tshirt = in_tshirt_sizes(src.team);
    let v = estimate_candidates(src.issues@, tshirt);
    let n = src.issues@[k].estimate->0.units as int;
    lemma_estimate_listed(src.issues@, tshirt, k);
    let c = choose|c: int|
        0 <= c < v.len() && #[trigger] estimate_candidates(src.issues@, tshirt)[c].id
            == text::int_text_of(n);
    let j = lemma_estimate_used(src.issues@, tshirt, c);
    let m = labels::estimate_of(src.issues@[j])->0 as int;
    text::lemma_int_text(m, n);
    lemma_candidate_defined(
        e.labels,
        label_list(src),
        label_id("status"@),
        (status_label(src).len() + priority_label().len()) as int,
        NS_LINEAR,
        "estimate_value"@,
        label_id("estimate"@),
        "Estimate"@,
        "gauge"@,
        v,
        c,
    );
    assert(defines(
        e.labels,
        label_id("estimate"@),
        "Estimate"@,
        value_of(e, k, label_id("estimate"@))->0,
        v[c].name,
        "#6B7280"@,
        false,
    ));
}

// ---------------------------------------------------------------------------
// Relations
// ---------------------------------------------------------------------------

/// Whether a relation of the given type leads from the issue with the id `from` to the one
/// with the id `to`.
pub open spec fn relates(r: LinearRelation, kind: Seq<char>, from: Seq<char>, to: Seq<char>) -> bool {
    &&& r.relation_type@ == kind
    &&& r.issue is Some && r.issue->0.id@ == from
    &&& r.related_issue is Some && r.related_issue->0.id@ == to
}

proof fn lemma_blocker_in(v: Seq<LinearRelation>, ids: Seq<Seq<char>>, k: int, n: int, x: int)
    requires
        ids.no_duplicates(),
        0 <= n < v.len(),
        0 <= k < ids.len(),
        0 <= x < ids.len(),
        relates(v[n], "blocks"@, ids[x], ids[k]),
    ensures
        conversion::blockers(v, ids, k).contains(det(NS_LINEAR, "item"@, ids[x])),
    decreases v.len(),
{
    let w = v.drop_last();
    let rest = conversion::blockers(w, ids, k);
    let out = conversion::blockers(v, ids, k);
    let id = det(NS_LINEAR, "item"@, ids[x]);
    if n < v.len() - 1 {
        assert(w[n] == v[n]);
        lemma_blocker_in(w, ids, k, n, x);
        let i = choose|i: int| 0 <= i < rest.len() && rest[i] == id;
        assert(out[i] == id);
    } else {
        assert forall|i: int| k < i < ids.len() implies #[trigger] ids[i] != ids[k] by {}
        common::lemma_last_index(ids, k);
        assert(out[rest.len() as int] == id);
    }
}

proof fn lemma_blocker_from(v: Seq<LinearRelation>, ids: Seq<Seq<char>>, k: int, b: int) -> (n: int)
    requires
        0 <= b < conversion::blockers(v, ids, k).len(),
        0 <= k < ids.len(),
    ensures
        0 <= n < v.len(),
        v[n].issue is Some,
        relates(v[n], "blocks"@, v[n].issue->0.id@, ids[k]),
        conversion::blockers(v, ids, k)[b] == det(NS_LINEAR, "item"@, v[n].issue->0.id@),
    decreases v.len(),
{
    let w = v.drop_last();
    let rest = conversion::blockers(w, ids, k);
    if v.len() > 0 && b < rest.len() {
        let n = lemma_blocker_from(w, ids, k, b);
        assert(w[n] == v[n]);
        n
    } else {
        let r = v[v.len() - 1];
        lemma_index_of(ids, r.related_issue->0.id@);
        v.len() - 1
    }
}

/// A relation by which an imported issue blocks another makes the item of the first a
/// blocker of the item of the other, not the other way round; and every blocker of an item
/// comes from such a relation. No two issues share an id.
pub proof fn lemma_blocks_kept(
    e: SpaceExport,
    src: LinearWorkspace,
    now: Seq<char>,
    n: int,
    x: int,
    k: int,
)
    requires
        export_is(e, src, now),
        issue_ids(src.issues@).no_duplicates(),
        0 <= n < src.issue_relations@.len(),
        0 <= x < src.issues@.len(),
        0 <= k < src.issues@.len(),
        relates(src.issue_relations@[n], "blocks"@, src.issues@[x].id@, src.issues@[k].id@),
    ensures
        text::texts(e.items@[k].blocked_by@).contains(
            det(NS_LINEAR, "item"@, src.issues@[x].id@),
        ),
        forall|b: int|
            0 <= b < e.items@[k].blocked_by@.len() ==> exists|m: int|
                0 <= m < src.issue_relations@.len() && src.issue_relations@[m].issue is Some
                    && relates(
                    #[trigger] src.issue_relations@[m],
                    "blocks"@,
                    src.issue_relations@[m].issue->0.id@,
                    src.issues@[k].id@,
                ) && (#[trigger] e.items@[k].blocked_by@[b])@ == det(
                    NS_LINEAR,
                    "item"@,
                    src.issue_relations@[m].issue->0.id@,
                ),
{
    let ids = issue_ids(src.issues@);
    let v = src.issue_relations@;
    assert(ids[x] == src.issues@[x].id@ && ids[k] == src.issues@[k].id@);
    lemma_blocker_in(v, ids, k, n, x);
    let item = e.items@[k];
    assert(text::texts(item.blocked_by@) == conversion::blockers(v, ids, k));
    assert forall|b: int| 0 <= b < item.blocked_by@.len() implies exists|m: int|
        0 <= m < v.len() && v[m].issue is Some && relates(
            #[trigger] v[m],
            "blocks"@,
            v[m].issue->0.id@,
            src.issues@[k].id@,
        ) && (#[trigger] item.blocked_by@[b])@ == det(NS_LINEAR, "item"@, v[m].issue->0.id@) by {
        assert(text::texts(item.blocked_by@)[b] == item.blocked_by@[b]@);
        let m = lemma_blocker_from(v, ids, k, b);
        assert(relates(v[m], "blocks"@, v[m].issue->0.id@, src.issues@[k].id@));
    }
}

proof fn lemma_duplicated_last(v: Seq<LinearRelation>, ids: Seq<Seq<char>>, k: int, n: int, y: int)
    requires
        ids.no_duplicates(),
        0 <= n < v.len(),
        0 <= k < ids.len(),
        0 <= y < ids.len(),
        relates(v[n], "duplicate"@, ids[k], ids[y]),
        forall|m: int|
            n < m < v.len() ==> (#[trigger] v[m]).relation_type@ != "duplicate"@ || v[m].issue is None
                || v[m].issue->0.id@ != ids[k],
    ensures
        conversion::duplicated(v, ids, k) == Some(det(NS_LINEAR, "item"@, ids[y])),
    decreases v.len(),
{
    assert forall|i: int| k < i < ids.len() implies #[trigger] ids[i] != ids[k] by {}
    common::lemma_last_index(ids, k);
    if n < v.len() - 1 {
        let w = v.drop_last();
        assert(w[n] == v[n]);
        assert forall|m: int| n < m < w.len() implies (#[trigger] w[m]).relation_type@
            != "duplicate"@ || w[m].issue is None || w[m].issue->0.id@ != ids[k] by {
            assert(w[m] == v[m]);
        }
        lemma_duplicated_last(w, ids, k, n, y);
        let m = v.len() - 1;
        assert(v[m].relation_type@ != "duplicate"@ || v[m].issue is None || v[m].issue->0.id@
            != ids[k]);
        if v[m].issue is Some {
            lemma_index_of(ids, v[m].issue->0.id@);
        }
    } else {
        assert(ids.contains(ids[k]) && ids.contains(ids[y]));
    }
}

/// The last relation by which an imported issue duplicates another makes the item of the
/// first a duplicate of the item of the other. No two issues share an id.
pub proof fn lemma_duplicate_kept(
    e: SpaceExport,
    src: LinearWorkspace,
    now: Seq<char>,
    n: int,
    k: int,
    y: int,
)
    requires
        export_is(e, src, now),
        issue_ids(src.issues@).no_duplicates(),
        0 <= n < src.issue_relations@.len(),
        0 <= k < src.issues@.len(),
        0 <= y < src.issues@.len(),
        relates(src.issue_relations@[n], "duplicate"@, src.issues@[k].id@, src.issues@[y].id@),
        forall|m: int|
            n < m < src.issue_relations@.len() ==> (#[trigger] src.issue_relations@[m]).relation_type@
                != "duplicate"@ || src.issue_relations@[m].issue is None
                || src.issue_relations@[m].issue->0.id@ != src.issues@[k].id@,
    ensures
        e.items@[k].duplicate_of is Some,
        e.items@[k].duplicate_of->0@ == det(NS_LINEAR, "item"@, src.issues@[y].id@),
{
    let ids = issue_ids(src.issues@);
    assert(ids[y] == src.issues@[y].id@ && ids[k] == src.issues@[k].id@);
    lemma_duplicated_last(src.issue_relations@, ids, k, n, y);
    assert(text::opt_text(e.items@[k].duplicate_of) == conversion::duplicated(
        src.issue_relations@,
        ids,
        k,
    ));
}

// ---------------------------------------------------------------------------
// Comments
// ---------------------------------------------------------------------------

proof fn lemma_comment_on(v: Seq<LinearComment>, ids: Seq<Seq<char>>, n: int, k: int)
    requires
        0 <= n < v.len(),
        conversion::comment_target(v[n], ids) == Some(k),
    ensures
        comments_on(v, ids, k).contains(v[n]),
    decreases v.len(),
{
    let w = v.drop_last();
    let rest = comments_on(w, ids, k);
    let all = comments_on(v, ids, k);
    if n < v.len() - 1 {
        assert(w[n] == v[n]);
        lemma_comment_on(w, ids, n, k);
        let j = choose|j: int| 0 <= j < rest.len() && rest[j] == v[n];
        assert(all[j] == v[n]);
    } else {
        assert(all[rest.len() as int] == v[n]);
    }
}

/// Every comment on an issue, the last with its id, is a comment on the item of that issue,
/// with its author, its times, its text with the links to uploaded files rewritten, and the
/// comment that it answers. The author has the name of the last user with their id.
pub proof fn lemma_comment_kept(
    e: SpaceExport,
    src: LinearWorkspace,
    now: Seq<char>,
    n: int,
    k: int,
)
    requires
        export_is(e, src, now),
        0 <= n < src.comments@.len(),
        0 <= k < src.issues@.len(),
        src.comments@[n].issue is Some,
        src.comments@[n].issue->0.id@ == src.issues@[k].id@,
        forall|j: int| k < j < src.issues@.len() ==> (#[trigger] src.issues@[j]).id@
            != src.issues@[k].id@,
    ensures
        exists|j: int|
            {
                let c = src.comments@[n];
                let o = e.items@[k].comments@[j];
                let body = rewritten(c.body@, e.space.id@);
                &&& 0 <= j < e.items@[k].comments@.len()
                &&& (#[trigger] e.items@[k].comments@[j]).id@ == det(
                    NS_LINEAR,
                    "comment"@,
                    c.id@,
                )
                &&& c.user is Some ==> o.author_id@ == det(NS_LINEAR, "user"@, c.user->0.id@)
                &&& c.user is None ==> o.author_id@ == codec::nil_uuid_text()
                    && o.author_name is None
                &&& o.content_text is Some && o.content_text->0@ == body
                &&& content_is(o.content_yjs, body)
                &&& same_text(o.created_at, c.created_at)
                &&& same_text(o.edited_at, c.edited_at)
                &&& refers(o.parent_id, "comment"@, c.parent)
                &&& !o.deleted && o.deleted_at is None
                &&& forall|u: int|
                    #![trigger src.users@[u]]
                    c.user is Some && 0 <= u < src.users@.len() && src.users@[u].id@
                        == c.user->0.id@ && src.users@[u].name@.len() > 0 && (forall|w: int|
                        u < w < src.users@.len() ==> (#[trigger] src.users@[w]).id@
                            != src.users@[u].id@) ==> o.author_name is Some && o.author_name->0@
                        == src.users@[u].name@
            },
{
    let ids = issue_ids(src.issues@);
    let c = src.comments@[n];
    assert(ids[k] == src.issues@[k].id@);
    assert forall|j: int| k < j < ids.len() implies #[trigger] ids[j] != ids[k] by {
        assert(src.issues@[j].id@ != src.issues@[k].id@);
    }
    common::lemma_last_index(ids, k);
    lemma_comment_on(src.comments@, ids, n, k);
    let on = comments_on(src.comments@, ids, k);
    let j = choose|j: int| 0 <= j < on.len() && on[j] == c;
    assert(comments_are(e.items@[k].comments@, on, src.users@, conversion::space_of(src)));
    assert(comment_is(e.items@[k].comments@[j], on[j], src.users@, conversion::space_of(src)));
    let o = e.items@[k].comments@[j];
    assert forall|u: int|
        #![trigger src.users@[u]]
        c.user is Some && 0 <= u < src.users@.len() && src.users@[u].id@ == c.user->0.id@
            && src.users@[u].name@.len() > 0 && (forall|w: int|
            u < w < src.users@.len() ==> (#[trigger] src.users@[w]).id@ != src.users@[u].id@) implies
        o.author_name is Some && o.author_name->0@ == src.users@[u].name@ by {
        let names = conversion::user_ids(src.users@);
        assert(names[u] == src.users@[u].id@);
        assert forall|w: int| u < w < names.len() implies #[trigger] names[w] != names[u] by {
            assert(src.users@[w].id@ != src.users@[u].id@);
        }
        common::lemma_last_index(names, u);
    }
}

// ---------------------------------------------------------------------------
// Milestones and views
// ---------------------------------------------------------------------------

/// Whether the project at `a` has a milestone at `b`.
pub open spec fn lists_milestone(v: Seq<LinearProject>, a: int, b: int) -> bool {
    0 <= a < v.len() && 0 <= b < v[a].project_milestones.nodes@.len()
}

/// The milestone that the project at `a` has at `b`.
pub open spec fn milestone_at(v: Seq<LinearProject>, a: int, b: int) -> LinearProjectMilestone {
    v[a].project_milestones.nodes@[b]
}

/// The id of a milestone.
pub open spec fn milestone_id(m: LinearProjectMilestone) -> Seq<char> {
    det(NS_LINEAR, "milestone"@, m.id@)
}

/// Whether no milestone before has the same id.
pub open spec fn is_first_milestone(v: Seq<LinearProject>, a: int, b: int) -> bool {
    &&& lists_milestone(v, a, b)
    &&& forall|x: int, y: int|
        #![trigger milestone_at(v, x, y)]
        lists_milestone(v, x, y) && (x < a || x == a && y < b) ==> milestone_id(
            milestone_at(v, x, y),
        ) != milestone_id(milestone_at(v, a, b))
}

proof fn lemma_milestone_from(v: Seq<LinearProject>, j: int) -> (r: (int, int))
    requires
        0 <= j < conversion::milestone_nodes(v).len(),
    ensures
        lists_milestone(v, r.0, r.1),
        conversion::milestone_nodes(v)[j] == milestone_at(v, r.0, r.1),
    decreases v.len(),
{
    let before = conversion::milestone_nodes(v.drop_last());
    if v.len() > 0 && j < before.len() {
        let r = lemma_milestone_from(v.drop_last(), j);
        assert(v.drop_last()[r.0] == v[r.0]);
        r
    } else {
        (v.len() - 1, j - before.len())
    }
}

proof fn lemma_milestone_position(v: Seq<LinearProject>, a: int, b: int) -> (k: int)
    requires
        lists_milestone(v, a, b),
    ensures
        0 <= k < conversion::milestone_nodes(v).len(),
        conversion::milestone_nodes(v)[k] == milestone_at(v, a, b),
        forall|j: int|
            0 <= j < k ==> exists|x: int, y: int|
                #![trigger milestone_at(v, x, y)]
                lists_milestone(v, x, y) && (x < a || x == a && y < b)
                    && #[trigger] conversion::milestone_nodes(v)[j] == milestone_at(v, x, y),
    decreases v.len(),
{
    let w = v.drop_last();
    let before = conversion::milestone_nodes(w);
    let all = conversion::milestone_nodes(v);
    if a < v.len() - 1 {
        assert(w[a] == v[a]);
        assert(lists_milestone(w, a, b));
        let k = lemma_milestone_position(w, a, b);
        assert forall|j: int| 0 <= j < k implies exists|x: int, y: int|
            #![trigger milestone_at(v, x, y)]
            lists_milestone(v, x, y) && (x < a || x == a && y < b) && #[trigger] all[j]
                == milestone_at(v, x, y) by {
            assert(before[j] == all[j]);
            let (x, y) = choose|x: int, y: int|
                #![trigger milestone_at(w, x, y)]
                lists_milestone(w, x, y) && (x < a || x == a && y < b) && before[j]
                    == milestone_at(w, x, y);
            assert(w[x] == v[x]);
            assert(milestone_at(w, x, y) == milestone_at(v, x, y));
        }
        k
    } else {
        let k = before.len() + b;
        assert forall|j: int| 0 <= j < k implies exists|x: int, y: int|
            #![trigger milestone_at(v, x, y)]
            lists_milestone(v, x, y) && (x < a || x == a && y < b) && #[trigger] all[j]
                == milestone_at(v, x, y) by {
            if j < before.len() {
                let r = lemma_milestone_from(w, j);
                assert(w[r.0] == v[r.0]);
                assert(milestone_at(w, r.0, r.1) == milestone_at(v, r.0, r.1));
            } else {
                assert(all[j] == milestone_at(v, a, j - before.len()));
            }
        }
        k
    }
}

proof fn lemma_milestone_source(v: Seq<LinearProjectMilestone>)
    ensures
        forall|id: Seq<char>| #[trigger]
            conversion::milestones_of(v).definitions.contains_key(id) ==> exists|j: int|
                0 <= j < v.len() && milestone_id(#[trigger] v[j]) == id,
    decreases v.len(),
{
    if v.len() > 0 {
        let w = v.drop_last();
        lemma_milestone_source(w);
        assert forall|id: Seq<char>| #[trigger]
            conversion::milestones_of(v).definitions.contains_key(id) implies exists|j: int|
            0 <= j < v.len() && milestone_id(#[trigger] v[j]) == id by {
            if conversion::milestones_of(w).definitions.contains_key(id) {
                let j = choose|j: int| 0 <= j < w.len() && milestone_id(#[trigger] w[j]) == id;
                assert(v[j] == w[j]);
            } else {
                assert(milestone_id(v[v.len() - 1]) == id);
            }
        }
    }
}

proof fn lemma_milestone_defined(v: Seq<LinearProjectMilestone>, k: int)
    requires
        0 <= k < v.len(),
        forall|j: int| 0 <= j < k ==> milestone_id(#[trigger] v[j]) != milestone_id(v[k]),
    ensures
        conversion::milestones_of(v).definitions.contains_key(milestone_id(v[k])),
        conversion::milestones_of(v).definitions[milestone_id(v[k])] == conversion::milestone_of(
            v[k],
        ),
        conversion::milestones_of(v).order.contains(milestone_id(v[k])),
    decreases v.len(),
{
    let w = v.drop_last();
    let rest = conversion::milestones_of(w);
    let all = conversion::milestones_of(v);
    if k < v.len() - 1 {
        assert forall|j: int| 0 <= j < k implies milestone_id(#[trigger] w[j]) != milestone_id(
            w[k],
        ) by {
            assert(w[j] == v[j]);
        }
        lemma_milestone_defined(w, k);
        let i = choose|i: int| 0 <= i < rest.order.len() && rest.order[i] == milestone_id(v[k]);
        assert(all.order[i] == rest.order[i]);
    } else {
        lemma_milestone_source(w);
        if rest.definitions.contains_key(milestone_id(v[k])) {
            let j = choose|j: int|
                0 <= j < w.len() && milestone_id(#[trigger] w[j]) == milestone_id(v[k]);
            assert(w[j] == v[j]);
            assert(milestone_id(v[j]) != milestone_id(v[k]));
        }
        assert(all.order[rest.order.len() as int] == milestone_id(v[k]));
    }
}

/// Every milestone of a project that is the first with its id is a milestone of the space,
/// listed and defined with its name and its target date as the deadline.
pub proof fn lemma_milestone_kept(
    e: SpaceExport,
    src: LinearWorkspace,
    now: Seq<char>,
    a: int,
    b: int,
)
    requires
        export_is(e, src, now),
        is_first_milestone(src.projects@, a, b),
    ensures
        ({
            let m = milestone_at(src.projects@, a, b);
            let id = det(NS_LINEAR, "milestone"@, m.id@);
            &&& text::texts(e.milestones.order@).contains(id)
            &&& e.milestones.definitions@.contains_key(id)
            &&& e.milestones.definitions@[id].id@ == id
            &&& e.milestones.definitions@[id].name@ == m.name@
            &&& e.milestones.definitions@[id].description is None
            &&& same_text(e.milestones.definitions@[id].deadline, m.target_date)
            &&& !e.milestones.definitions@[id].deprecated
        }),
{
    let v = src.projects@;
    let all = conversion::milestone_nodes(v);
    let k = lemma_milestone_position(v, a, b);
    assert forall|j: int| 0 <= j < k implies milestone_id(#[trigger] all[j]) != milestone_id(
        all[k],
    ) by {
        let (x, y) = choose|x: int, y: int|
            #![trigger milestone_at(v, x, y)]
            lists_milestone(v, x, y) && (x < a || x == a && y < b) && all[j] == milestone_at(
                v,
                x,
                y,
            );
        assert(milestone_id(milestone_at(v, x, y)) != milestone_id(milestone_at(v, a, b)));
    }
    lemma_milestone_defined(all, k);
    let id = milestone_id(all[k]);
    let views = common::milestones_view(e.milestones);
    assert(views.definitions.contains_key(id));
    assert(views.definitions[id] == common::milestone_view(e.milestones.definitions@[id]));
}

/// A team has a board by status and, where it has cycles, one by cycle behind it.
pub proof fn lemma_views_kept(e: SpaceExport, src: LinearWorkspace, now: Seq<char>)
    requires
        export_is(e, src, now),
        det(NS_LINEAR, "view"@, "by-status"@) != det(NS_LINEAR, "view"@, "by-cycle"@),
    ensures
        ({
            let by_status = det(NS_LINEAR, "view"@, "by-status"@);
            let by_cycle = det(NS_LINEAR, "view"@, "by-cycle"@);
            let status = det(NS_LINEAR, "label"@, "status"@);
            let defs = e.views.definitions@;
            &&& text::texts(e.views.order@) == (if src.cycles@.len() > 0 {
                seq![by_status, by_cycle]
            } else {
                seq![by_status]
            })
            &&& defs.contains_key(by_status)
            &&& common::is_board(defs[by_status], by_status, "By Status"@, status, "0"@)
            &&& defs.contains_key(by_cycle) <==> src.cycles@.len() > 0
            &&& src.cycles@.len() > 0 ==> common::is_board(
                defs[by_cycle],
                by_cycle,
                "By Cycle"@,
                "cycle"@,
                "1"@,
            )
        }),
{
    let by_status = det(NS_LINEAR, "view"@, "by-status"@);
    assert(e.views.definitions@.dom().contains(by_status));
}

// ---------------------------------------------------------------------------
// Uploaded files
// ---------------------------------------------------------------------------

proof fn lemma_emitted(emitted: Seq<char>, rest: Seq<char>, space: Seq<char>)
    ensures
        uploads::rewritten_from(emitted, rest, space) == emitted + rewritten(rest, space),
    decreases rest.len(),
{
    match text::find_of(rest, uploads::needle()) {
        None => {
            assert(seq![] + rest =~= rest);
        },
        Some(pos) => {
            text::lemma_find_from(rest, uploads::needle(), 0);
            uploads::lemma_url_len(rest, pos);
            uploads::lemma_url_bound(rest.skip(pos));
            let after = rest.skip(pos);
            let url = after.take(uploads::url_len(after));
            let path = route_of(space, uploads::attachment_id(url));
            let tail = after.skip(uploads::url_len(after));
            lemma_emitted(emitted + rest.take(pos) + path, tail, space);
            lemma_emitted(seq![] + rest.take(pos) + path, tail, space);
            assert(emitted + rest.take(pos) + path + rewritten(tail, space) =~= emitted + (
            seq![] + rest.take(pos) + path + rewritten(tail, space)));
        },
    }
}

/// Whether a URL ends before `c`.
pub open spec fn ends_link(c: char) -> bool {
    text::is_white(c) || c == ')' || c == ']' || c == '"' || c == '\'' || c == '<' || c == '>'
}

proof fn lemma_url(url: Seq<char>, post: Seq<char>)
    requires
        forall|i: int| 0 <= i < url.len() ==> !ends_link(#[trigger] url[i]),
        post.len() > 0 ==> ends_link(post[0]),
    ensures
        uploads::url_len(url + post) == url.len(),
    decreases url.len(),
{
    let s = url + post;
    if url.len() > 0 {
        assert(s[0] == url[0]);
        assert(!ends_link(url[0]));
        assert(s.skip(1) =~= url.skip(1) + post);
        assert forall|i: int| 0 <= i < url.skip(1).len() implies !ends_link(
            #[trigger] url.skip(1)[i],
        ) by {
            assert(url.skip(1)[i] == url[i + 1]);
        }
        lemma_url(url.skip(1), post);
    } else {
        assert(s =~= post);
    }
}

/// The URL of an uploaded file, up to the first sign that ends it, is replaced by the path
/// under which the space serves the file; what stands before it stays as it is, and what
/// stands behind it is rewritten in the same way. A text without such a URL stays as it is.
pub proof fn lemma_upload_rewritten(
    pre: Seq<char>,
    url: Seq<char>,
    post: Seq<char>,
    space: Seq<char>,
)
    requires
        text::find_of(pre + url + post, "https://uploads.linear.app/"@) == Some(pre.len() as int),
        forall|i: int| 0 <= i < url.len() ==> !ends_link(#[trigger] url[i]),
        post.len() > 0 ==> ends_link(post[0]),
    ensures
        rewritten(pre + url + post, space) == pre + "/api/spaces/"@ + space + "/attachments/"@
            + det(NS_LINEAR, "attachment"@, url) + rewritten(post, space),
{
    let s = pre + url + post;
    let pos = pre.len() as int;
    let after = s.skip(pos);
    assert(after =~= url + post);
    lemma_url(url, post);
    assert(after.take(url.len() as int) =~= url);
    assert(after.skip(url.len() as int) =~= post);
    assert(s.take(pos) =~= pre);
    let path = route_of(space, uploads::attachment_id(url));
    lemma_emitted(seq![] + pre + path, post, space);
    assert(seq![] + pre + path + rewritten(post, space) =~= pre + "/api/spaces/"@ + space
        + "/attachments/"@ + det(NS_LINEAR, "attachment"@, url) + rewritten(post, space));
}

/// The type of a file goes by what stands behind the last dot of its name, in whatever
/// case.
pub proof fn lemma_content_type(stem: Seq<char>, ext: Seq<char>)
    requires
        !ext.contains('.'),
    ensures
        ({
            let t = uploads::content_type_of(stem + "."@ + ext);
            let x = common::lowered(ext);
            &&& x == "png"@ ==> t == "image/png"@
            &&& x == "jpg"@ || x == "jpeg"@ ==> t == "image/jpeg"@
            &&& x == "gif"@ ==> t == "image/gif"@
            &&& x == "webp"@ ==> t == "image/webp"@
            &&& x == "svg"@ ==> t == "image/svg+xml"@
            &&& x == "bmp"@ ==> t == "image/bmp"@
            &&& x == "tiff"@ || x == "tif"@ ==> t == "image/tiff"@
            &&& x == "mp4"@ ==> t == "video/mp4"@
            &&& x == "mov"@ || x == "m4v"@ ==> t == "video/quicktime"@
            &&& x == "webm"@ ==> t == "video/webm"@
            &&& x == "pdf"@ ==> t == "application/pdf"@
            &&& x != "png"@ && x != "jpg"@ && x != "jpeg"@ && x != "gif"@ && x != "webp"@ && x
                != "svg"@ && x != "bmp"@ && x != "tiff"@ && x != "tif"@ && x != "mp4"@ && x
                != "mov"@ && x != "m4v"@ && x != "webm"@ && x != "pdf"@ ==> t
                == "application/octet-stream"@
        }),
{
    reveal_strlit(".");
    let s = stem + "."@ + ext;
    let k = stem.len() as int;
    assert(s[k] == '.');
    assert forall|i: int| k < i < s.len() implies #[trigger] s[i] != '.' by {
        assert(s[i] == ext[i - k - 1]);
    }
    text::lemma_rfind_char(s, '.', k);
    assert(s.skip(k + 1) =~= ext);
    lemma_extensions();
}

/// An uploaded file is named by the last segment of its URL where that has an extension,
/// and otherwise by the label of its link where there is one.
pub proof fn lemma_upload_name(url: Seq<char>, label: Option<Seq<char>>, head: Seq<char>, last: Seq<char>)
    requires
        url == head + "/"@ + last,
        !last.contains('/'),
    ensures
        uploads::extension_ok(last) ==> uploads::filename_of(url, label) == last,
        !uploads::extension_ok(last) && label is Some && text::trim_of(label->0).len() > 0
            ==> uploads::filename_of(url, label) == text::trim_of(label->0),
        !uploads::extension_ok(last) && label is None && last.len() > 0 ==> uploads::filename_of(
            url,
            label,
        ) == last,
        !uploads::extension_ok(last) && label is None && last.len() == 0 ==> uploads::filename_of(
            url,
            label,
        ) == "attachment"@,
{
    reveal_strlit("/");
    let k = head.len() as int;
    assert(url[k] == '/');
    assert forall|i: int| k < i < url.len() implies #[trigger] url[i] != '/' by {
        assert(url[i] == last[i - k - 1]);
    }
    text::lemma_rfind_char(url, '/', k);
    assert(url.skip(k + 1) =~= last);
}

/// Every file that the description of an issue links is an attachment of the space, once,
/// to be fetched from its URL. No two URLs have the same id.
pub proof fn lemma_upload_kept(
    c: conversion::LinearConversion,
    src: LinearWorkspace,
    now: Seq<char>,
    k: int,
    n: int,
)
    requires
        conversion::is_conversion(c, src, now),
        0 <= k < src.issues@.len(),
        src.issues@[k].description is Some,
        text::trim_of(src.issues@[k].description->0@).len() > 0,
        0 <= n < uploads::uploads(src.issues@[k].description->0@, c.export.space.id@).len(),
        uploads::ids_differ(common::none_gathered(), conversion::all_uploads(src)),
    ensures
        ({
            let u = uploads::uploads(src.issues@[k].description->0@, c.export.space.id@)[n];
            let id = det(NS_LINEAR, "attachment"@, u.url);
            &&& c.attachment_urls@.contains_key(id)
            &&& c.attachment_urls@[id]@ == u.url
            &&& exists|x: int|
                0 <= x < c.export.attachments@.len() && (#[trigger] c.export.attachments@[x]).id@
                    == id
        }),
{
    let space = conversion::space_of(src);
    let d = src.issues@[k].description->0@;
    let u = uploads::uploads(d, space)[n];
    let all = conversion::all_uploads(src);
    let g = common::none_gathered();
    let by = conversion::uploader(src.users@);
    let m = lemma_description_upload(src.issues@, space, k, n);
    assert(all[m] == u);
    uploads::lemma_uploads(g, all, by, now);
    let h = uploads::all_noted(g, all, by, now);
    let id = uploads::attachment_id(all[m].url);
    assert(h.urls.contains_key(id) && h.urls[id] == u.url);
    let own = common::text_map(c.attachment_urls@);
    assert(own == h.urls);
    assert(own.contains_key(id));
    let x = choose|x: int| 0 <= x < h.list.len() && (#[trigger] h.list[x]).id == id;
    assert(common::attachment_views(c.export.attachments@)[x] == common::attachment_view(
        c.export.attachments@[x],
    ));
}

proof fn lemma_description_upload(v: Seq<LinearIssue>, space: Seq<char>, k: int, n: int) -> (m: int)
    requires
        0 <= k < v.len(),
        conversion::description_of(v[k]) is Some,
        0 <= n < uploads::uploads(conversion::description_of(v[k])->0, space).len(),
    ensures
        0 <= m < conversion::description_uploads(v, space).len(),
        conversion::description_uploads(v, space)[m] == uploads::uploads(
            conversion::description_of(v[k])->0,
            space,
        )[n],
    decreases v.len(),
{
    let w = v.drop_last();
    let before = conversion::description_uploads(w, space);
    if k < v.len() - 1 {
        assert(w[k] == v[k]);
        lemma_description_upload(w, space, k, n)
    } else {
        before.len() + n
    }
}

/// Relations that lead out of the import are counted in a warning.
pub proof fn lemma_relations_warned(
    c: conversion::LinearConversion,
    src: LinearWorkspace,
    now: Seq<char>,
)
    requires
        conversion::is_conversion(c, src, now),
    ensures
        ({
            let n = src.issue_relations@.filter(
                |r: LinearRelation| !inside(r, issue_ids(src.issues@)),
            ).len();
            n > 0 ==> text::texts(c.warnings@).contains(
                text::decimal(n)
                    + " issue relation(s) referenced an issue outside the import and were dropped"@,
            )
        }),
{
    let ids = issue_ids(src.issues@);
    lemma_dropped(src.issue_relations@, ids);
    let n = src.issue_relations@.filter(|r: LinearRelation| !inside(r, ids)).len();
    let all = text::texts(c.warnings@);
    let tags = conversion::tag_warnings(src.issues@, src);
    if n > 0 {
        assert(all[tags.len() as int] == text::decimal(n)
            + " issue relation(s) referenced an issue outside the import and were dropped"@);
    }
}

/// Whether both ends of a relation are imported.
pub open spec fn inside(r: LinearRelation, ids: Seq<Seq<char>>) -> bool {
    r.issue is Some && r.related_issue is Some && ids.contains(r.issue->0.id@) && ids.contains(
        r.related_issue->0.id@,
    )
}

proof fn lemma_dropped(v: Seq<LinearRelation>, ids: Seq<Seq<char>>)
    ensures
        conversion::dropped_relations(v, ids) == v.filter(
            |r: LinearRelation| !inside(r, ids),
        ).len(),
    decreases v.len(),
{
    reveal(Seq::filter);
    if v.len() > 0 {
        lemma_dropped(v.drop_last(), ids);
    }
}

proof fn lemma_extensions()
    ensures
        "png"@ != "jpg"@,
        "png"@ != "jpeg"@,
        "png"@ != "gif"@,
        "png"@ != "webp"@,
        "png"@ != "svg"@,
        "png"@ != "bmp"@,
        "png"@ != "tiff"@,
        "png"@ != "tif"@,
        "png"@ != "mp4"@,
        "png"@ != "mov"@,
        "png"@ != "m4v"@,
        "png"@ != "webm"@,
        "png"@ != "pdf"@,
        "jpg"@ != "jpeg"@,
        "jpg"@ != "gif"@,
        "jpg"@ != "webp"@,
        "jpg"@ != "svg"@,
        "jpg"@ != "bmp"@,
        "jpg"@ != "tiff"@,
        "jpg"@ != "tif"@,
        "jpg"@ != "mp4"@,
        "jpg"@ != "mov"@,
        "jpg"@ != "m4v"@,
        "jpg"@ != "webm"@,
        "jpg"@ != "pdf"@,
        "jpeg"@ != "gif"@,
        "jpeg"@ != "webp"@,
        "jpeg"@ != "svg"@,
        "jpeg"@ != "bmp"@,
        "jpeg"@ != "tiff"@,
        "jpeg"@ != "tif"@,
        "jpeg"@ != "mp4"@,
        "jpeg"@ != "mov"@,
        "jpeg"@ != "m4v"@,
        "jpeg"@ != "webm"@,
        "jpeg"@ != "pdf"@,
        "gif"@ != "webp"@,
        "gif"@ != "svg"@,
        "gif"@ != "bmp"@,
        "gif"@ != "tiff"@,
        "gif"@ != "tif"@,
        "gif"@ != "mp4"@,
        "gif"@ != "mov"@,
        "gif"@ != "m4v"@,
        "gif"@ != "webm"@,
        "gif"@ != "pdf"@,
        "webp"@ != "svg"@,
        "webp"@ != "bmp"@,
        "webp"@ != "tiff"@,
        "webp"@ != "tif"@,
        "webp"@ != "mp4"@,
        "webp"@ != "mov"@,
        "webp"@ != "m4v"@,
        "webp"@ != "webm"@,
        "webp"@ != "pdf"@,
        "svg"@ != "bmp"@,
        "svg"@ != "tiff"@,
        "svg"@ != "tif"@,
        "svg"@ != "mp4"@,
        "svg"@ != "mov"@,
        "svg"@ != "m4v"@,
        "svg"@ != "webm"@,
        "svg"@ != "pdf"@,
        "bmp"@ != "tiff"@,
        "bmp"@ != "tif"@,
        "bmp"@ != "mp4"@,
        "bmp"@ != "mov"@,
        "bmp"@ != "m4v"@,
        "bmp"@ != "webm"@,
        "bmp"@ != "pdf"@,
        "tiff"@ != "tif"@,
        "tiff"@ != "mp4"@,
        "tiff"@ != "mov"@,
        "tiff"@ != "m4v"@,
        "tiff"@ != "webm"@,
        "tiff"@ != "pdf"@,
        "tif"@ != "mp4"@,
        "tif"@ != "mov"@,
        "tif"@ != "m4v"@,
        "tif"@ != "webm"@,
        "tif"@ != "pdf"@,
        "mp4"@ != "mov"@,
        "mp4"@ != "m4v"@,
        "mp4"@ != "webm"@,
        "mp4"@ != "pdf"@,
        "mov"@ != "m4v"@,
        "mov"@ != "webm"@,
        "mov"@ != "pdf"@,
        "m4v"@ != "webm"@,
        "m4v"@ != "pdf"@,
        "webm"@ != "pdf"@,
{
    reveal_strlit("png");
    reveal_strlit("jpg");
    reveal_strlit("jpeg");
    reveal_strlit("gif");
    reveal_strlit("webp");
    reveal_strlit("svg");
    reveal_strlit("bmp");
    reveal_strlit("tiff");
    reveal_strlit("tif");
    reveal_strlit("mp4");
    reveal_strlit("mov");
    reveal_strlit("m4v");
    reveal_strlit("webm");
    reveal_strlit("pdf");
    assert("png"@.len() == 3);
    assert("jpg"@.len() == 3);
    assert("jpeg"@.len() == 4);
    assert("gif"@.len() == 3);
    assert("webp"@.len() == 4);
    assert("svg"@.len() == 3);
    assert("bmp"@.len() == 3);
    assert("tiff"@.len() == 4);
    assert("tif"@.len() == 3);
    assert("mp4"@.len() == 3);
    assert("mov"@.len() == 3);
    assert("m4v"@.len() == 3);
    assert("webm"@.len() == 4);
    assert("pdf"@.len() == 3);
    assert("png"@[1] == 'n');
    assert("jpg"@[1] == 'p');
    assert("gif"@[1] == 'i');
    assert("svg"@[1] == 'v');
    assert("bmp"@[1] == 'm');
    assert("tif"@[1] == 'i');
    assert("mp4"@[1] == 'p');
    assert("mov"@[1] == 'o');
    assert("m4v"@[1] == '4');
    assert("pdf"@[1] == 'd');
    assert("jpg"@[0] == 'j');
    assert("gif"@[0] == 'g');
    assert("tif"@[0] == 't');
    assert("mp4"@[0] == 'm');
    assert("jpeg"@[3] == 'g');
    assert("webp"@[3] == 'p');
    assert("tiff"@[3] == 'f');
    assert("webm"@[3] == 'm');
}

// ---------------------------------------------------------------------------
// The order of labels and values
// ---------------------------------------------------------------------------

/// The values of the label `Status` stand in the order of the positions of the states.
pub proof fn lemma_states_ordered(e: SpaceExport, src: LinearWorkspace, now: Seq<char>, c: int, d: int)
    requires
        export_is(e, src, now),
        ids_apart(e.labels),
        0 <= c < src.workflow_states@.len(),
        0 <= d < src.workflow_states@.len(),
        src.workflow_states@[c].position < src.workflow_states@[d].position || (
        src.workflow_states@[c].position == src.workflow_states@[d].position && c < d),
    ensures
        common::before(
            text::texts(e.labels.definitions@[det(NS_LINEAR, "label"@, "status"@)].values_order@),
            det(NS_LINEAR, "status_value"@, src.workflow_states@[c].id@),
            det(NS_LINEAR, "status_value"@, src.workflow_states@[d].id@),
        ),
{
    lemma_positions(src);
    let v = state_candidates(src.workflow_states@);
    assert(v[c].rank == src.workflow_states@[c].position && v[c].by == ""@);
    assert(v[d].rank == src.workflow_states@[d].position && v[d].by == ""@);
    common::lemma_candidate_before(
        e.labels,
        label_list(src),
        label_id("status"@),
        0,
        NS_LINEAR,
        "status_value"@,
        label_id("status"@),
        "Status"@,
        "circle"@,
        v,
        c,
        d,
    );
}

/// The values of the label `Priority` stand in the order of their urgency, and those of the
/// label `Project` as the projects are listed.
pub proof fn lemma_values_ordered(e: SpaceExport, src: LinearWorkspace, now: Seq<char>, a: int, b: int)
    requires
        export_is(e, src, now),
        ids_apart(e.labels),
        0 <= a < b,
    ensures
        1 <= a && b <= 4 ==> common::before(
            text::texts(e.labels.definitions@[det(NS_LINEAR, "label"@, "priority"@)].values_order@),
            det(NS_LINEAR, "priority_value"@, text::int_text_of(a)),
            det(NS_LINEAR, "priority_value"@, text::int_text_of(b)),
        ),
        b < src.projects@.len() ==> common::before(
            text::texts(e.labels.definitions@[det(NS_LINEAR, "label"@, "project"@)].values_order@),
            det(NS_LINEAR, "project_value"@, src.projects@[a].id@),
            det(NS_LINEAR, "project_value"@, src.projects@[b].id@),
        ),
{
    lemma_positions(src);
    let n = status_label(src).len() as int;
    if 1 <= a && b <= 4 {
        let v = priority_candidates();
        assert(v[a - 1] == labels::priority_candidate(a));
        assert(v[b - 1] == labels::priority_candidate(b));
        common::lemma_candidate_before(
            e.labels,
            label_list(src),
            label_id("status"@),
            n,
            NS_LINEAR,
            "priority_value"@,
            label_id("priority"@),
            "Priority"@,
            "flag"@,
            v,
            a - 1,
            b - 1,
        );
    }
    if b < src.projects@.len() {
        let v = project_candidates(src.projects@);
        assert(v[a] == labels::project_candidate(src.projects@[a]));
        assert(v[b] == labels::project_candidate(src.projects@[b]));
        common::lemma_candidate_before(
            e.labels,
            label_list(src),
            label_id("status"@),
            (n + priority_label().len() + estimate_label(src).len()) as int,
            NS_LINEAR,
            "project_value"@,
            label_id("project"@),
            "Project"@,
            "folder"@,
            v,
            a,
            b,
        );
    }
}

/// In a team that has states, the label `Status` is the primary one and stands first, with
/// the label `Priority` behind it; the label `Tags`, where there is one, stands last.
pub proof fn lemma_label_order(e: SpaceExport, src: LinearWorkspace, now: Seq<char>)
    requires
        export_is(e, src, now),
        ids_apart(e.labels),
        src.workflow_states@.len() > 0,
    ensures
        e.labels.primary_label_id is Some,
        e.labels.primary_label_id->0@ == det(NS_LINEAR, "label"@, "status"@),
        e.labels.order@.len() >= 2,
        e.labels.order@[0]@ == det(NS_LINEAR, "label"@, "status"@),
        e.labels.order@[1]@ == det(NS_LINEAR, "label"@, "priority"@),
        tag_candidates(label_refs(src)).len() > 0 ==> e.labels.order@.last()@ == det(
            NS_LINEAR,
            "label"@,
            "tags"@,
        ),
{
    lemma_positions(src);
    let l = label_list(src);
    lemma_ids(e, src, now);
    assert(state_candidates(src.workflow_states@).len() > 0);
    assert(status_label(src).len() == 1);
    let order = text::texts(e.labels.order@);
    assert(common::labels_view(e.labels) == common::labels_of(l, label_id("status"@)));
    assert(order == common::label_ids(l));
    assert(l.len() >= 2 && order.len() == l.len());
    assert(order[0] == l[0].id && order[1] == l[1].id);
    assert(order[0] == e.labels.order@[0]@ && order[1] == e.labels.order@[1]@);
    assert(status_label(src)[0] == l[0]);
    assert(priority_label()[0] == l[1]);
    assert(l[0].id == label_id("status"@));
    common::lemma_label_map(l, 0);
    if tag_candidates(label_refs(src)).len() > 0 {
        let t = tags_label(label_refs(src));
        assert(t[0].id == label_id("tags"@));
        assert(order.last() == l.last().id);
        assert(e.labels.order@.last()@ == order.last());
    }
}

// ---------------------------------------------------------------------------
// Groups and tags
// ---------------------------------------------------------------------------

/// Whether all references to a label that name a group call it by one name, give it one
/// color and name one group.
pub open spec fn one_child(
    v: Seq<LinearLabelRef>,
    id: Seq<char>,
    group: Seq<char>,
    name: Seq<char>,
    color: Option<Seq<char>>,
) -> bool {
    forall|i: int|
        0 <= i < v.len() && (#[trigger] v[i]).id@ == id && v[i].parent is Some ==> {
            &&& v[i].parent->0.id@ == group
            &&& v[i].name@ == name
            &&& text::opt_text(v[i].color) == color
        }
}

/// Whether all references that name a group call it by one name.
pub open spec fn one_group(v: Seq<LinearLabelRef>, group: Seq<char>, name: Seq<char>) -> bool {
    forall|i: int|
        0 <= i < v.len() && (#[trigger] v[i]).parent is Some && v[i].parent->0.id@ == group ==> {
            &&& v[i].parent->0.name is Some
            &&& v[i].parent->0.name->0@ == name
        }
}

proof fn lemma_child_facts(
    v: Seq<LinearLabelRef>,
    id: Seq<char>,
    group: Seq<char>,
    name: Seq<char>,
    color: Option<Seq<char>>,
)
    requires
        one_child(v, id, group, name, color),
    ensures
        parents_of(v).contains_key(id) ==> parents_of(v)[id] == group,
        labels::name_of(v, id, true).len() > 0 ==> labels::name_of(v, id, true) == name,
        text::opt_text(labels::color_of(v, id, true)) is Some ==> text::opt_text(
            labels::color_of(v, id, true),
        ) == color,
        (exists|i: int| 0 <= i < v.len() && (#[trigger] v[i]).id@ == id && v[i].parent is Some)
            ==> parents_of(v).contains_key(id) && labels::name_of(v, id, true) == name
            && text::opt_text(labels::color_of(v, id, true)) == color,
    decreases v.len(),
{
    if v.len() > 0 {
        let w = v.drop_last();
        let last = v.len() - 1;
        assert forall|i: int|
            0 <= i < w.len() && (#[trigger] w[i]).id@ == id && w[i].parent is Some implies {
            &&& w[i].parent->0.id@ == group
            &&& w[i].name@ == name
            &&& text::opt_text(w[i].color) == color
        } by {
            assert(w[i] == v[i]);
        }
        lemma_child_facts(w, id, group, name, color);
        assert(v[last].id@ == id && v[last].parent is Some ==> v[last].parent->0.id@ == group
            && v[last].name@ == name && text::opt_text(v[last].color) == color);
        if exists|i: int| 0 <= i < v.len() && (#[trigger] v[i]).id@ == id && v[i].parent is Some {
            let i = choose|i: int|
                0 <= i < v.len() && (#[trigger] v[i]).id@ == id && v[i].parent is Some;
            if i < last {
                assert(w[i] == v[i]);
            }
        }
    }
}

proof fn lemma_group_named(v: Seq<LinearLabelRef>, group: Seq<char>, name: Seq<char>)
    requires
        one_group(v, group, name),
    ensures
        labels::parent_name_of(v, group).len() > 0 ==> labels::parent_name_of(v, group) == name,
        (exists|i: int|
            0 <= i < v.len() && (#[trigger] v[i]).parent is Some && v[i].parent->0.id@ == group)
            ==> labels::parent_name_of(v, group) == name,
    decreases v.len(),
{
    if v.len() > 0 {
        let w = v.drop_last();
        let last = v.len() - 1;
        assert forall|i: int|
            0 <= i < w.len() && (#[trigger] w[i]).parent is Some && w[i].parent->0.id@
                == group implies {
            &&& w[i].parent->0.name is Some
            &&& w[i].parent->0.name->0@ == name
        } by {
            assert(w[i] == v[i]);
        }
        lemma_group_named(w, group, name);
        assert(v[last].parent is Some && v[last].parent->0.id@ == group
            ==> v[last].parent->0.name is Some && v[last].parent->0.name->0@ == name);
        if exists|i: int|
            0 <= i < v.len() && (#[trigger] v[i]).parent is Some && v[i].parent->0.id@ == group {
            let i = choose|i: int|
                0 <= i < v.len() && (#[trigger] v[i]).parent is Some && v[i].parent->0.id@ == group;
            if i < last {
                assert(w[i] == v[i]);
            }
        }
    }
}

proof fn lemma_node_listed(v: Seq<LinearIssue>, k: int, j: int) -> (n: int)
    requires
        0 <= k < v.len(),
        0 <= j < v[k].labels.nodes@.len(),
    ensures
        0 <= n < labels::issue_label_refs(v).len(),
        labels::issue_label_refs(v)[n] == v[k].labels.nodes@[j],
    decreases v.len(),
{
    let w = v.drop_last();
    let before = labels::issue_label_refs(w);
    if k < v.len() - 1 {
        assert(w[k] == v[k]);
        lemma_node_listed(w, k, j)
    } else {
        before.len() + j
    }
}

proof fn lemma_member_at(ids: Seq<Seq<char>>, v: Seq<LinearLabelRef>, group: Seq<char>, k: int) -> (c:
    int)
    requires
        0 <= k < ids.len(),
        parents_of(v)[ids[k]] == group,
    ensures
        0 <= c < labels::members(ids, v, group).len(),
        labels::members(ids, v, group)[c] == labels::label_candidate(v, ids[k], true),
    decreases ids.len(),
{
    let w = ids.drop_last();
    if k < ids.len() - 1 {
        assert(w[k] == ids[k]);
        lemma_member_at(w, v, group, k)
    } else {
        labels::members(w, v, group).len() as int
    }
}

proof fn lemma_group_at(groups: Seq<Seq<char>>, v: Seq<LinearLabelRef>, g: int) -> (n: int)
    requires
        0 <= g < groups.len(),
        group_candidates(v, groups[g]).len() > 0,
    ensures
        0 <= n < group_labels(groups, v).len(),
        labels::group_label(v, groups[g]) == seq![group_labels(groups, v)[n]],
    decreases groups.len(),
{
    let w = groups.drop_last();
    let rest = group_labels(w, v);
    if g < groups.len() - 1 {
        assert(w[g] == groups[g]);
        lemma_group_at(w, v, g)
    } else {
        let own = labels::group_label(v, groups[g]);
        assert(own =~= seq![group_labels(groups, v)[rest.len() as int]]);
        rest.len() as int
    }
}

/// A label of an issue that belongs to a group is a value of the label for that group, and
/// the item has that value, where it is the last of the labels of the issue: the label is
/// named like the group, and the value like the label and in its color. All references to
/// either agree.
pub proof fn lemma_group_label_kept(
    e: SpaceExport,
    src: LinearWorkspace,
    now: Seq<char>,
    k: int,
    name: Seq<char>,
)
    requires
        export_is(e, src, now),
        ids_apart(e.labels),
        0 <= k < src.issues@.len(),
        src.issues@[k].labels.nodes@.len() > 0,
        src.issues@[k].labels.nodes@.last().parent is Some,
        name.len() > 0,
        one_group(label_refs(src), src.issues@[k].labels.nodes@.last().parent->0.id@, name),
        one_child(
            label_refs(src),
            src.issues@[k].labels.nodes@.last().id@,
            src.issues@[k].labels.nodes@.last().parent->0.id@,
            src.issues@[k].labels.nodes@.last().name@,
            text::opt_text(src.issues@[k].labels.nodes@.last().color),
        ),
    ensures
        ({
            let l = src.issues@[k].labels.nodes@.last();
            let label = det(NS_LINEAR, "group_label"@, l.parent->0.id@);
            let value = det(NS_LINEAR, "group_value"@, l.id@);
            &&& value_of(e, k, label) == Some(value)
            &&& defines(
                e.labels,
                label,
                name,
                value,
                l.name@,
                match l.color {
                    Some(x) => x@,
                    None => "#6B7280"@,
                },
                false,
            )
        }),
{
    let refs = label_refs(src);
    let nodes = src.issues@[k].labels.nodes@;
    let l = nodes.last();
    let group = l.parent->0.id@;
    let j = lemma_node_listed(src.issues@, k, nodes.len() - 1);
    let at = src.issue_labels@.len() + j;
    assert(refs[at] == l);
    lemma_child_facts(refs, l.id@, group, l.name@, text::opt_text(l.color));
    lemma_group_named(refs, group, name);
    lemma_parents(refs, l.id@);
    lemma_item_labels(e, src, now, k);
    lemma_positions(src);
    let kids = child_ids(refs);
    let x = choose|x: int| 0 <= x < kids.len() && kids[x] == l.id@;
    let c = lemma_member_at(kids, refs, group, x);
    let groups = group_ids(refs);
    let g = choose|g: int| 0 <= g < groups.len() && groups[g] == group;
    let n = lemma_group_at(groups, refs, g);
    let base = (status_label(src).len() + priority_label().len() + estimate_label(src).len()
        + project_label(src).len()) as int;
    lemma_candidate_defined(
        e.labels,
        label_list(src),
        label_id("status"@),
        base + n,
        NS_LINEAR,
        "group_value"@,
        det(NS_LINEAR, "group_label"@, group),
        labels::group_name_of(refs, group),
        "tag"@,
        group_candidates(refs, group),
        c,
    );
    let label = det(NS_LINEAR, "group_label"@, group);
    let value = det(NS_LINEAR, "group_value"@, l.id@);
    let m = issue_labels(src.issues@[k], src);
    assert(m.contains_key(label) && m[label] == value);
    assert(value_of(e, k, label) == Some(value));
    assert(labels::group_name_of(refs, group) == name);
    let color = labels::color_of(refs, l.id@, true);
    assert(text::opt_text(color) == text::opt_text(l.color));
    assert(labels::color_or_gray(color) == labels::color_or_gray(l.color));
}

/// Whether a label stands alone: no reference says that it belongs to a group, and none
/// that it is one.
pub open spec fn stands_alone(v: Seq<LinearLabelRef>, id: Seq<char>) -> bool {
    forall|i: int|
        0 <= i < v.len() && (#[trigger] v[i]).parent is Some ==> v[i].id@ != id
            && v[i].parent->0.id@ != id
}

/// Whether all references to a label call it by one name and give it one color.
pub open spec fn one_tag(
    v: Seq<LinearLabelRef>,
    id: Seq<char>,
    name: Seq<char>,
    color: Option<Seq<char>>,
) -> bool {
    forall|i: int|
        0 <= i < v.len() && (#[trigger] v[i]).id@ == id ==> v[i].name@ == name && text::opt_text(
            v[i].color,
        ) == color
}

proof fn lemma_alone(v: Seq<LinearLabelRef>, id: Seq<char>)
    requires
        stands_alone(v, id),
    ensures
        !parents_of(v).contains_key(id),
        !group_ids(v).contains(id),
    decreases v.len(),
{
    if v.len() > 0 {
        let w = v.drop_last();
        assert forall|i: int| 0 <= i < w.len() && (#[trigger] w[i]).parent is Some implies w[i].id@
            != id && w[i].parent->0.id@ != id by {
            assert(w[i] == v[i]);
        }
        lemma_alone(w, id);
        let l = v[v.len() - 1];
        if let Some(p) = l.parent {
            let rest = group_ids(w);
            let all = group_ids(v);
            if all.contains(id) {
                let i = choose|i: int| 0 <= i < all.len() && all[i] == id;
                if i < rest.len() {
                    assert(rest[i] == id);
                }
            }
        }
    }
}

proof fn lemma_tag_facts(
    v: Seq<LinearLabelRef>,
    id: Seq<char>,
    name: Seq<char>,
    color: Option<Seq<char>>,
)
    requires
        one_tag(v, id, name, color),
    ensures
        labels::name_of(v, id, false).len() > 0 ==> labels::name_of(v, id, false) == name,
        text::opt_text(labels::color_of(v, id, false)) is Some ==> text::opt_text(
            labels::color_of(v, id, false),
        ) == color,
        (exists|i: int| 0 <= i < v.len() && (#[trigger] v[i]).id@ == id) ==> labels::name_of(
            v,
            id,
            false,
        ) == name && text::opt_text(labels::color_of(v, id, false)) == color
            && labels::seen_ids(v).contains(id),
    decreases v.len(),
{
    if v.len() > 0 {
        let w = v.drop_last();
        let last = v.len() - 1;
        assert forall|i: int| 0 <= i < w.len() && (#[trigger] w[i]).id@ == id implies w[i].name@
            == name && text::opt_text(w[i].color) == color by {
            assert(w[i] == v[i]);
        }
        lemma_tag_facts(w, id, name, color);
        assert(v[last].id@ == id ==> v[last].name@ == name && text::opt_text(v[last].color)
            == color);
        if exists|i: int| 0 <= i < v.len() && (#[trigger] v[i]).id@ == id {
            let i = choose|i: int| 0 <= i < v.len() && (#[trigger] v[i]).id@ == id;
            let rest = labels::seen_ids(w);
            let all = labels::seen_ids(v);
            if i < last {
                assert(w[i] == v[i]);
            }
            if rest.contains(id) {
                let n = choose|n: int| 0 <= n < rest.len() && rest[n] == id;
                assert(all[n] == id);
            } else {
                assert(v[last].id@ == id);
                assert(all[rest.len() as int] == id);
            }
        }
    }
}

proof fn lemma_tag_at(ids: Seq<Seq<char>>, v: Seq<LinearLabelRef>, k: int) -> (c: int)
    requires
        0 <= k < ids.len(),
        stands_alone(v, ids[k]),
    ensures
        0 <= c < labels::standalone(ids, v).len(),
        labels::standalone(ids, v)[c] == labels::label_candidate(v, ids[k], false),
    decreases ids.len(),
{
    let w = ids.drop_last();
    lemma_alone(v, ids[k]);
    if k < ids.len() - 1 {
        assert(w[k] == ids[k]);
        lemma_tag_at(w, v, k)
    } else {
        labels::standalone(w, v).len() as int
    }
}

/// The only label of an issue, where it stands alone, is a value of the label `Tags`, under
/// its own name and in its own color or in gray, and the item has that value. All
/// references to it agree.
pub proof fn lemma_tag_kept(e: SpaceExport, src: LinearWorkspace, now: Seq<char>, k: int)
    requires
        export_is(e, src, now),
        ids_apart(e.labels),
        0 <= k < src.issues@.len(),
        src.issues@[k].labels.nodes@.len() == 1,
        stands_alone(label_refs(src), src.issues@[k].labels.nodes@[0].id@),
        one_tag(
            label_refs(src),
            src.issues@[k].labels.nodes@[0].id@,
            src.issues@[k].labels.nodes@[0].name@,
            text::opt_text(src.issues@[k].labels.nodes@[0].color),
        ),
    ensures
        ({
            let l = src.issues@[k].labels.nodes@[0];
            let label = det(NS_LINEAR, "label"@, "tags"@);
            let value = det(NS_LINEAR, "tag_value"@, l.id@);
            &&& value_of(e, k, label) == Some(value)
            &&& defines(
                e.labels,
                label,
                "Tags"@,
                value,
                l.name@,
                match l.color {
                    Some(x) => x@,
                    None => "#6B7280"@,
                },
                false,
            )
        }),
{
    let refs = label_refs(src);
    let nodes = src.issues@[k].labels.nodes@;
    let l = nodes[0];
    let j = lemma_node_listed(src.issues@, k, 0);
    let at = src.issue_labels@.len() + j;
    assert(refs[at] == l);
    lemma_alone(refs, l.id@);
    lemma_tag_facts(refs, l.id@, l.name@, text::opt_text(l.color));
    lemma_item_labels(e, src, now, k);
    lemma_positions(src);
    let ids = labels::seen_ids(refs);
    let x = choose|x: int| 0 <= x < ids.len() && ids[x] == l.id@;
    let c = lemma_tag_at(ids, refs, x);
    let tags = tag_candidates(refs);
    assert(tags[c].id == l.id@);
    let base = (status_label(src).len() + priority_label().len() + estimate_label(src).len()
        + project_label(src).len() + group_labels(group_ids(refs), refs).len()) as int;
    lemma_candidate_defined(
        e.labels,
        label_list(src),
        label_id("status"@),
        base,
        NS_LINEAR,
        "tag_value"@,
        label_id("tags"@),
        "Tags"@,
        "tag"@,
        tags,
        c,
    );
    let label = det(NS_LINEAR, "label"@, "tags"@);
    let value = det(NS_LINEAR, "tag_value"@, l.id@);
    let m = issue_labels(src.issues@[k], src);
    assert(known(tags, l.id@));
    assert(nodes.drop_last() =~= seq![]);
    assert(labels::tag_count(nodes.drop_last(), parents_of(refs), tags) == 0);
    assert(m.contains_key(label) && m[label] == value);
    assert(value_of(e, k, label) == Some(value));
    let color = labels::color_of(refs, l.id@, false);
    assert(labels::color_or_gray(color) == labels::color_or_gray(l.color));
}

// ---------------------------------------------------------------------------
// What is known of uploaded files
// ---------------------------------------------------------------------------

/// A link to an uploaded file, or an image, is found with its URL and with its label.
pub proof fn lemma_upload_labelled(
    pre: Seq<char>,
    label: Seq<char>,
    url: Seq<char>,
    post: Seq<char>,
    space: Seq<char>,
)
    requires
        pre.len() > 0 ==> pre.last() != '[',
        label.len() > 0,
        !text::is_white(label[0]),
        !text::is_white(label.last()),
        !label.contains('['),
        text::find_of(
            pre + "["@ + label + "]("@ + url + post,
            "https://uploads.linear.app/"@,
        ) == Some(pre.len() + label.len() + 3 as int),
        forall|i: int| 0 <= i < url.len() ==> !ends_link(#[trigger] url[i]),
        post.len() > 0 ==> ends_link(post[0]),
    ensures
        ({
            let v = uploads::uploads(pre + "["@ + label + "]("@ + url + post, space);
            v.len() > 0 && v[0].url == url && v[0].label == Some(label)
        }),
{
    reveal_strlit("[");
    reveal_strlit("](");
    let s = pre + "["@ + label + "]("@ + url + post;
    let pos = pre.len() + label.len() + 3 as int;
    let after = s.skip(pos);
    assert(after =~= url + post);
    lemma_url(url, post);
    assert(after.take(url.len() as int) =~= url);
    let none: Seq<char> = seq![];
    let head = none + s.take(pos);
    assert(head =~= pre + "["@ + label + "]("@);
    assert(head.last() == '(');
    let t = head.drop_last();
    let b = pre.len() as int;
    assert(t[b] == '[');
    assert forall|i: int| b < i < t.len() implies #[trigger] t[i] != '[' by {
        if i < b + 1 + label.len() {
            assert(t[i] == label[i - b - 1]);
            assert(label.contains(label[i - b - 1]));
        }
    }
    text::lemma_rfind_char(t, '[', b);
    let inner = t.skip(b + 1);
    assert(inner.last() == ']');
    assert(inner.drop_last() =~= label);
    assert(text::trim_of(label) =~= label);
    if b > 0 {
        assert(t[b - 1] == pre.last());
    }
}

proof fn lemma_noted_from(
    g: Gathered,
    v: Seq<uploads::Upload>,
    by: Seq<char>,
    at: Seq<char>,
    x: int,
) -> (m: int)
    requires
        g.list.len() <= x < uploads::all_noted(g, v, by, at).list.len(),
    ensures
        0 <= m < v.len(),
        uploads::all_noted(g, v, by, at).list[x] == uploads::upload_attachment(v[m], by, at),
    decreases v.len(),
{
    let h = uploads::noted(g, v[0], by, at);
    let w = v.skip(1);
    if v.len() == 0 {
        0
    } else if x < h.list.len() {
        lemma_noted_keeps(h, w, by, at, x);
        0
    } else {
        let m = lemma_noted_from(h, w, by, at, x);
        assert(w[m] == v[m + 1]);
        m + 1
    }
}

proof fn lemma_noted_keeps(
    g: Gathered,
    v: Seq<uploads::Upload>,
    by: Seq<char>,
    at: Seq<char>,
    x: int,
)
    requires
        0 <= x < g.list.len(),
    ensures
        x < uploads::all_noted(g, v, by, at).list.len(),
        uploads::all_noted(g, v, by, at).list[x] == g.list[x],
    decreases v.len(),
{
    if v.len() > 0 {
        lemma_noted_keeps(uploads::noted(g, v[0], by, at), v.skip(1), by, at, x);
    }
}

/// Every attachment stands for a file that a text links: its id comes from the URL, its
/// name from the URL or the label of the link, and its type from its name. It is not known
/// how large it is; it was uploaded now, by the first active user.
pub proof fn lemma_attachment_kept(
    e: SpaceExport,
    src: LinearWorkspace,
    now: Seq<char>,
    x: int,
    u: int,
) -> (m: int)
    requires
        export_is(e, src, now),
        0 <= x < e.attachments@.len(),
        0 <= u < src.users@.len(),
        src.users@[u].active,
        forall|i: int| 0 <= i < u ==> !(#[trigger] src.users@[i]).active,
    ensures
        ({
            let a = e.attachments@[x];
            let f = conversion::all_uploads(src)[m];
            &&& 0 <= m < conversion::all_uploads(src).len()
            &&& a.id@ == det(NS_LINEAR, "attachment"@, f.url)
            &&& a.filename@ == uploads::filename_of(f.url, f.label)
            &&& a.content_type@ == uploads::content_type_of(a.filename@)
            &&& a.size_bytes == 0
            &&& a.uploaded_by@ == det(NS_LINEAR, "user"@, src.users@[u].id@)
            &&& a.uploaded_at@ == now
            &&& a.document_id is None
            &&& !a.orphaned
        }),
{
    let by = conversion::uploader(src.users@);
    let g = common::none_gathered();
    lemma_first_active(src.users@, u);
    let views = common::attachment_views(e.attachments@);
    assert(views == conversion::gathered(src, now).list);
    assert(views[x] == common::attachment_view(e.attachments@[x]));
    lemma_noted_from(g, conversion::all_uploads(src), by, now, x)
}

proof fn lemma_first_active(v: Seq<LinearUser>, u: int)
    requires
        0 <= u < v.len(),
        v[u].active,
        forall|i: int| 0 <= i < u ==> !(#[trigger] v[i]).active,
    ensures
        conversion::first_active(v) == Some(v[u].id@),
    decreases v.len(),
{
    let w = v.drop_last();
    if u < v.len() - 1 {
        assert(w[u] == v[u]);
        assert forall|i: int| 0 <= i < u implies !(#[trigger] w[i]).active by {
            assert(w[i] == v[i]);
        }
        lemma_first_active(w, u);
    } else {
        lemma_none_active(w);
    }
}

proof fn lemma_none_active(v: Seq<LinearUser>)
    requires
        forall|i: int| 0 <= i < v.len() ==> !(#[trigger] v[i]).active,
    ensures
        conversion::first_active(v) is None,
    decreases v.len(),
{
    if v.len() > 0 {
        let w = v.drop_last();
        assert forall|i: int| 0 <= i < w.len() implies !(#[trigger] w[i]).active by {
            assert(w[i] == v[i]);
        }
        lemma_none_active(w);
        assert(!v[v.len() - 1].active);
    }
}

/// An issue with two or more labels that stand alone, and no other, is warned of by its
/// identifier, with how many there are and how many are dropped.
pub proof fn lemma_tags_warned(
    c: conversion::LinearConversion,
    src: LinearWorkspace,
    now: Seq<char>,
    k: int,
)
    requires
        conversion::is_conversion(c, src, now),
        0 <= k < src.issues@.len(),
        src.issues@[k].labels.nodes@.len() >= 2,
        src.issues@[k].identifier is Some,
        forall|j: int|
            0 <= j < src.issues@[k].labels.nodes@.len() ==> stands_alone(
                label_refs(src),
                (#[trigger] src.issues@[k].labels.nodes@[j]).id@,
            ),
    ensures
        ({
            let n = src.issues@[k].labels.nodes@.len();
            text::texts(c.warnings@).contains(
                "issue "@ + src.issues@[k].identifier->0@ + " had "@ + text::decimal(n)
                    + " standalone labels; Tags keeps only the first ("@ + text::decimal(
                    (n - 1) as nat,
                ) + " dropped)"@,
            )
        }),
{
    let nodes = src.issues@[k].labels.nodes@;
    let refs = label_refs(src);
    assert forall|j: int| 0 <= j < nodes.len() implies !parents_of(refs).contains_key(
        (#[trigger] nodes[j]).id@,
    ) && known(tag_candidates(refs), nodes[j].id@) by {
        let id = nodes[j].id@;
        assert(stands_alone(refs, id));
        lemma_alone(refs, id);
        let n = lemma_node_listed(src.issues@, k, j);
        let at = src.issue_labels@.len() + n;
        assert(refs[at].id@ == id);
        lemma_seen(refs, at);
        let ids = labels::seen_ids(refs);
        let x = choose|x: int| 0 <= x < ids.len() && ids[x] == id;
        let t = lemma_tag_at(ids, refs, x);
        assert(tag_candidates(refs)[t].id == id);
    }
    lemma_all_tags(nodes, parents_of(refs), tag_candidates(refs));
    let told = labels::tag_warning(src.issues@[k], src)[0];
    let n = lemma_warned(src.issues@, src, k);
    assert(text::texts(c.warnings@)[n] == told);
}

proof fn lemma_seen(v: Seq<LinearLabelRef>, k: int)
    requires
        0 <= k < v.len(),
    ensures
        labels::seen_ids(v).contains(v[k].id@),
    decreases v.len(),
{
    let w = v.drop_last();
    let rest = labels::seen_ids(w);
    let all = labels::seen_ids(v);
    let id = v[k].id@;
    if k < v.len() - 1 {
        assert(w[k] == v[k]);
        lemma_seen(w, k);
    }
    if rest.contains(id) {
        let n = choose|n: int| 0 <= n < rest.len() && rest[n] == id;
        assert(all[n] == id);
    } else {
        assert(all[rest.len() as int] == id);
    }
}

proof fn lemma_all_tags(
    nodes: Seq<LinearLabelRef>,
    parents: Map<Seq<char>, Seq<char>>,
    tags: Seq<CandidateView>,
)
    requires
        forall|j: int|
            0 <= j < nodes.len() ==> !parents.contains_key((#[trigger] nodes[j]).id@) && known(
                tags,
                nodes[j].id@,
            ),
    ensures
        labels::tag_count(nodes, parents, tags) == nodes.len(),
    decreases nodes.len(),
{
    if nodes.len() > 0 {
        let w = nodes.drop_last();
        assert forall|j: int| 0 <= j < w.len() implies !parents.contains_key(
            (#[trigger] w[j]).id@,
        ) && known(tags, w[j].id@) by {
            assert(w[j] == nodes[j]);
        }
        lemma_all_tags(w, parents, tags);
        assert(known(tags, nodes[nodes.len() - 1].id@));
    }
}

proof fn lemma_warned(v: Seq<LinearIssue>, src: LinearWorkspace, k: int) -> (n: int)
    requires
        0 <= k < v.len(),
        labels::tag_warning(v[k], src).len() == 1,
    ensures
        0 <= n < conversion::tag_warnings(v, src).len(),
        conversion::tag_warnings(v, src)[n] == labels::tag_warning(v[k], src)[0],
    decreases v.len(),
{
    let w = v.drop_last();
    if k < v.len() - 1 {
        assert(w[k] == v[k]);
        lemma_warned(w, src, k)
    } else {
        conversion::tag_warnings(w, src).len() as int
    }
}

} // verus!
