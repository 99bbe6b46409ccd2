//! What holds of every conversion of a Linear team.

use vstd::prelude::*;

use crate::export::types::{ExportComment, ExportDocument, ExportItem, SpaceExport};
use crate::import::convert::common::{
    self, CandidateView, Gathered, LabelView, all_offered, det, known, label_for, lemma_index_of,
    lemma_label_for, lemma_offers_append, offers, with_text,
};
use crate::import::convert::linear::conversion::{
    LinearConversion, all_uploads, blockers, comment_is, comment_target, comments_are, comments_on,
    cycle_is, cycle_view, description_of, document_is, documents_are, duplicated, ends, export_is,
    is_conversion, issue_ids, item_fields, items_are, ref_id, space_of, uploader, user_is,
};
use crate::import::convert::linear::labels::{
    child_ids, completes, estimate_candidate, estimate_candidates, estimate_of, fixed_labels,
    group_candidates, group_ids, group_label, group_labels, in_tshirt_sizes, issue_labels,
    label_id, label_list, label_refs, members, parents_of, priority_candidates, project_candidates,
    state_candidate, state_candidates, tag_candidates, tags_label, with_nodes,
};
use crate::import::convert::linear::uploads::{Upload, all_noted, noted, rewritten};
use crate::import::convert::linear::{
    LinearComment, LinearDocument, LinearIssue, LinearLabelRef, LinearRelation, LinearUser,
    LinearWorkspace, NS_LINEAR,
};
use crate::import::convert::same::{
    lemma_same_blob, lemma_same_views, same_comment, same_comments, same_cycle, same_document,
    same_export, same_gathered, same_item, same_item_fields, same_user,
};
use crate::import::space_config::cycles_ok;
use crate::text;

verus! {

// ---------------------------------------------------------------------------
// Labels
// ---------------------------------------------------------------------------

/// Whether the labels have a value for each of the candidates.
spec fn serves(list: Seq<LabelView>, label: Seq<char>, kind: Seq<char>, v: Seq<CandidateView>) -> bool {
    forall|i: Seq<char>| #[trigger] known(v, i) ==> offers(list, label, det(NS_LINEAR, kind, i))
}

proof fn lemma_serves(
    list: Seq<LabelView>,
    before: Seq<LabelView>,
    after: Seq<LabelView>,
    label: Seq<char>,
    kind: Seq<char>,
    name: Seq<char>,
    icon: Seq<char>,
    v: Seq<CandidateView>,
)
    requires
        list == before + label_for(NS_LINEAR, kind, label, name, icon, v) + after,
    ensures
        serves(list, label, kind, v),
{
    let own = label_for(NS_LINEAR, kind, label, name, icon, v);
    assert forall|i: Seq<char>| #[trigger] known(v, i) implies offers(
        list,
        label,
        det(NS_LINEAR, kind, i),
    ) by {
        let c = choose|c: int| 0 <= c < v.len() && (#[trigger] v[c]).id == i;
        lemma_label_for(NS_LINEAR, kind, label, name, icon, v, c);
        lemma_offers_append(before, own, label, det(NS_LINEAR, kind, i));
        lemma_offers_append(before + own, after, label, det(NS_LINEAR, kind, i));
    }
}

proof fn lemma_regroup(
    a: Seq<LabelView>,
    b: Seq<LabelView>,
    c: Seq<LabelView>,
    d: Seq<LabelView>,
    rest: Seq<LabelView>,
)
    ensures
        (a + b + c + d) + rest == seq![] + a + (b + c + d + rest),
        (a + b + c + d) + rest == a + b + (c + d + rest),
        (a + b + c + d) + rest == (a + b) + c + (d + rest),
        (a + b + c + d) + rest == (a + b + c) + d + rest,
{
    assert((a + b + c + d) + rest =~= seq![] + a + (b + c + d + rest));
    assert((a + b + c + d) + rest =~= a + b + (c + d + rest));
    assert((a + b + c + d) + rest =~= (a + b) + c + (d + rest));
}

/// The labels of a team have the values of status, priority, estimate and project.
proof fn lemma_fixed_serve(src: LinearWorkspace)
    ensures
        serves(
            label_list(src),
            label_id("status"@),
            "status_value"@,
            state_candidates(src.workflow_states@),
        ),
        serves(
            label_list(src),
            label_id("priority"@),
            "priority_value"@,
            priority_candidates(),
        ),
        serves(
            label_list(src),
            label_id("estimate"@),
            "estimate_value"@,
            estimate_candidates(src.issues@, in_tshirt_sizes(src.team)),
        ),
        serves(
            label_list(src),
            label_id("project"@),
            "project_value"@,
            project_candidates(src.projects@),
        ),
{
    let states = state_candidates(src.workflow_states@);
    let priorities = priority_candidates();
    let estimates = estimate_candidates(src.issues@, in_tshirt_sizes(src.team));
    let projects = project_candidates(src.projects@);
    let a = label_for(
        NS_LINEAR,
        "status_value"@,
        label_id("status"@),
        "Status"@,
        "circle"@,
        states,
    );
    let b = label_for(
        NS_LINEAR,
        "priority_value"@,
        label_id("priority"@),
        "Priority"@,
        "flag"@,
        priorities,
    );
    let c = label_for(
        NS_LINEAR,
        "estimate_value"@,
        label_id("estimate"@),
        "Estimate"@,
        "gauge"@,
        estimates,
    );
    let d = label_for(
        NS_LINEAR,
        "project_value"@,
        label_id("project"@),
        "Project"@,
        "folder"@,
        projects,
    );
    let refs = label_refs(src);
    let rest = group_labels(group_ids(refs), refs) + tags_label(refs);
    let l = label_list(src);
    assert(l =~= (a + b + c + d) + rest);
    lemma_regroup(a, b, c, d, rest);
    lemma_serves(
        l,
        seq![],
        b + c + d + rest,
        label_id("status"@),
        "status_value"@,
        "Status"@,
        "circle"@,
        states,
    );
    lemma_serves(
        l,
        a,
        c + d + rest,
        label_id("priority"@),
        "priority_value"@,
        "Priority"@,
        "flag"@,
        priorities,
    );
    lemma_serves(
        l,
        a + b,
        d + rest,
        label_id("estimate"@),
        "estimate_value"@,
        "Estimate"@,
        "gauge"@,
        estimates,
    );
    lemma_serves(
        l,
        a + b + c,
        rest,
        label_id("project"@),
        "project_value"@,
        "Project"@,
        "folder"@,
        projects,
    );
}

proof fn lemma_tags_serve(src: LinearWorkspace)
    ensures
        serves(
            label_list(src),
            label_id("tags"@),
            "tag_value"@,
            tag_candidates(label_refs(src)),
        ),
{
    let refs = label_refs(src);
    let before = fixed_labels(src) + group_labels(group_ids(refs), refs);
    assert(label_list(src) =~= before + tags_label(refs) + seq![]);
    lemma_serves(
        label_list(src),
        before,
        seq![],
        label_id("tags"@),
        "tag_value"@,
        "Tags"@,
        "tag"@,
        tag_candidates(refs),
    );
}

/// A label with a group is one of those in groups, and its group is one of them.
pub(crate) proof fn lemma_parents(v: Seq<LinearLabelRef>, id: Seq<char>)
    requires
        parents_of(v).contains_key(id),
    ensures
        child_ids(v).contains(id),
        group_ids(v).contains(parents_of(v)[id]),
    decreases v.len(),
{
    if v.len() > 0 {
        let before = v.drop_last();
        let l = v.last();
        if parents_of(before).contains_key(id) {
            lemma_parents(before, id);
            lemma_with_text(child_ids(before), l.id@, id);
            if let Some(p) = l.parent {
                lemma_with_text(group_ids(before), p.id@, parents_of(v)[id]);
            }
        } else {
            lemma_with_text(child_ids(before), l.id@, l.id@);
            lemma_with_text(group_ids(before), l.parent->0.id@, l.parent->0.id@);
        }
    }
}

proof fn lemma_with_text(v: Seq<Seq<char>>, s: Seq<char>, t: Seq<char>)
    requires
        v.contains(t) || s == t,
    ensures
        with_text(v, s).contains(t),
{
    if v.contains(t) {
        let k = choose|k: int| 0 <= k < v.len() && v[k] == t;
        assert(with_text(v, s)[k] == t);
    } else {
        assert(v.push(s)[v.len() as int] == s);
    }
}

pub(crate) proof fn lemma_member(ids: Seq<Seq<char>>, v: Seq<LinearLabelRef>, group: Seq<char>, k: int)
    requires
        0 <= k < ids.len(),
        parents_of(v)[ids[k]] == group,
    ensures
        known(members(ids, v, group), ids[k]),
    decreases ids.len(),
{
    let rest = members(ids.drop_last(), v, group);
    let all = members(ids, v, group);
    if k < ids.len() - 1 {
        lemma_member(ids.drop_last(), v, group, k);
        let c = choose|c: int| 0 <= c < rest.len() && (#[trigger] rest[c]).id == ids[k];
        assert(all[c] == rest[c]);
    } else {
        assert(all[rest.len() as int].id == ids[k]);
    }
}

pub(crate) proof fn lemma_group_offers(
    groups: Seq<Seq<char>>,
    v: Seq<LinearLabelRef>,
    g: int,
    value: Seq<char>,
)
    requires
        0 <= g < groups.len(),
        known(group_candidates(v, groups[g]), value),
    ensures
        offers(
            group_labels(groups, v),
            det(NS_LINEAR, "group_label"@, groups[g]),
            det(NS_LINEAR, "group_value"@, value),
        ),
    decreases groups.len(),
{
    let label = det(NS_LINEAR, "group_label"@, groups[g]);
    let id = det(NS_LINEAR, "group_value"@, value);
    let before = group_labels(groups.drop_last(), v);
    let own = group_label(v, groups.last());
    if g < groups.len() - 1 {
        lemma_group_offers(groups.drop_last(), v, g, value);
    } else {
        let c = group_candidates(v, groups[g]);
        let k = choose|k: int| 0 <= k < c.len() && (#[trigger] c[k]).id == value;
        lemma_label_for(
            NS_LINEAR,
            "group_value"@,
            label,
            crate::import::convert::linear::labels::group_name_of(v, groups[g]),
            "tag"@,
            c,
            k,
        );
    }
    lemma_offers_append(before, own, label, id);
}

/// The labels of a team have, for each label with a group, the value under the
/// label of the group.
proof fn lemma_groups_serve(src: LinearWorkspace, id: Seq<char>)
    requires
        parents_of(label_refs(src)).contains_key(id),
    ensures
        offers(
            label_list(src),
            det(NS_LINEAR, "group_label"@, parents_of(label_refs(src))[id]),
            det(NS_LINEAR, "group_value"@, id),
        ),
{
    let v = label_refs(src);
    let group = parents_of(v)[id];
    let label = det(NS_LINEAR, "group_label"@, group);
    let value = det(NS_LINEAR, "group_value"@, id);
    lemma_parents(v, id);
    let c = choose|c: int| 0 <= c < child_ids(v).len() && child_ids(v)[c] == id;
    lemma_member(child_ids(v), v, group, c);
    let groups = group_ids(v);
    let g = choose|g: int| 0 <= g < groups.len() && groups[g] == group;
    lemma_group_offers(groups, v, g, id);
    lemma_offers_append(fixed_labels(src), group_labels(groups, v), label, value);
    lemma_offers_append(fixed_labels(src) + group_labels(groups, v), tags_label(v), label, value);
}

proof fn lemma_nodes_offered(
    src: LinearWorkspace,
    m: Map<Seq<char>, Seq<char>>,
    nodes: Seq<LinearLabelRef>,
)
    requires
        all_offered(label_list(src), m),
    ensures
        all_offered(
            label_list(src),
            with_nodes(m, nodes, parents_of(label_refs(src)), tag_candidates(label_refs(src))),
        ),
    decreases nodes.len(),
{
    if nodes.len() > 0 {
        lemma_nodes_offered(src, m, nodes.drop_last());
        let id = nodes.last().id@;
        if parents_of(label_refs(src)).contains_key(id) {
            lemma_groups_serve(src, id);
        } else {
            lemma_tags_serve(src);
        }
    }
}

proof fn lemma_estimate_known(v: Seq<LinearIssue>, tshirt: bool, k: int)
    requires
        0 <= k < v.len(),
        estimate_of(v[k]) is Some,
    ensures
        known(estimate_candidates(v, tshirt), text::int_text_of(estimate_of(v[k])->0 as int)),
    decreases v.len(),
{
    let rest = estimate_candidates(v.drop_last(), tshirt);
    let all = estimate_candidates(v, tshirt);
    let id = text::int_text_of(estimate_of(v[k])->0 as int);
    if k < v.len() - 1 {
        lemma_estimate_known(v.drop_last(), tshirt, k);
        let c = choose|c: int| 0 <= c < rest.len() && (#[trigger] rest[c]).id == id;
        assert(all[c] == rest[c]);
    } else {
        lemma_number_text(estimate_of(v[k])->0 as int);
        if !known(rest, id) {
            assert(all[rest.len() as int] == estimate_candidate(
                estimate_of(v[k])->0 as int,
                tshirt,
            ));
        }
    }
}

proof fn lemma_number_text(n: int)
    ensures
        text::int_text_of(n).len() > 0,
{
    reveal_strlit("-");
    if n >= 0 {
        assert(text::decimal(n as nat).len() > 0);
    }
}

/// Every value that an issue of the team has of a label is a value of a label of
/// the team.
pub proof fn lemma_issue_labels_offered(src: LinearWorkspace, k: int)
    requires
        0 <= k < src.issues@.len(),
    ensures
        all_offered(label_list(src), issue_labels(src.issues@[k], src)),
{
    let i = src.issues@[k];
    let l = label_list(src);
    lemma_fixed_serve(src);
    let m0: Map<Seq<char>, Seq<char>> = Map::empty();
    let m1 = match i.state {
        Some(s) => if known(state_candidates(src.workflow_states@), s.id@) {
            m0.insert(label_id("status"@), det(NS_LINEAR, "status_value"@, s.id@))
        } else {
            m0
        },
        None => m0,
    };
    assert(all_offered(l, m1));
    let m2 = if 1 <= i.priority <= 4 {
        m1.insert(
            label_id("priority"@),
            det(NS_LINEAR, "priority_value"@, text::int_text_of(i.priority as int)),
        )
    } else {
        m1
    };
    if 1 <= i.priority <= 4 {
        let p = priority_candidates();
        assert(p[i.priority - 1].id == text::int_text_of(i.priority as int));
        assert(known(p, text::int_text_of(i.priority as int)));
    }
    assert(all_offered(l, m2));
    let m3 = match estimate_of(i) {
        Some(n) => m2.insert(
            label_id("estimate"@),
            det(NS_LINEAR, "estimate_value"@, text::int_text_of(n as int)),
        ),
        None => m2,
    };
    if estimate_of(i) is Some {
        lemma_estimate_known(src.issues@, in_tshirt_sizes(src.team), k);
    }
    assert(all_offered(l, m3));
    let m4 = match i.project {
        Some(p) => if known(project_candidates(src.projects@), p.id@) {
            m3.insert(label_id("project"@), det(NS_LINEAR, "project_value"@, p.id@))
        } else {
            m3
        },
        None => m3,
    };
    assert(all_offered(l, m4));
    lemma_nodes_offered(src, m4, i.labels.nodes@);
}

/// Where no two labels share an id, every value that an item of a conversion has is
/// a value that the export defines.
pub proof fn lemma_labels_defined(
    e: SpaceExport,
    src: LinearWorkspace,
    now: Seq<char>,
    k: int,
    label: Seq<char>,
)
    requires
        export_is(e, src, now),
        text::texts(e.labels.order@).no_duplicates(),
        0 <= k < e.items@.len(),
        e.items@[k].labels@.contains_key(label),
    ensures
        e.labels.definitions@.contains_key(label),
        e.labels.definitions@[label].values@.contains_key(e.items@[k].labels@[label]@),
{
    assert(item_fields(e.items@[k], src.issues@[k], src, space_of(src)));
    lemma_issue_labels_offered(src, k);
    let m = common::text_map(e.items@[k].labels@);
    assert(m == issue_labels(src.issues@[k], src));
    assert(m.contains_key(label));
    common::lemma_offered_defined(e.labels, label_list(src), label_id("status"@), label, m[label]);
}

/// Every workflow state becomes a value of the status label, and completes an item
/// exactly where its type is that of a completed, canceled or duplicate issue.
pub proof fn lemma_states_kept(src: LinearWorkspace, k: int)
    requires
        0 <= k < src.workflow_states@.len(),
    ensures
        label_list(src).len() > 0,
        label_list(src)[0].id == label_id("status"@),
        label_list(src)[0].values_order.contains(
            det(NS_LINEAR, "status_value"@, src.workflow_states@[k].id@),
        ),
        common::candidate_values(
            NS_LINEAR,
            "status_value"@,
            state_candidates(src.workflow_states@),
        ).contains(
            common::plain_value(
                det(NS_LINEAR, "status_value"@, src.workflow_states@[k].id@),
                src.workflow_states@[k].name@,
                state_candidate(src.workflow_states@[k]).color,
                completes(src.workflow_states@[k].state_type@),
            ),
        ),
{
    let v = state_candidates(src.workflow_states@);
    lemma_label_for(
        NS_LINEAR,
        "status_value"@,
        label_id("status"@),
        "Status"@,
        "circle"@,
        v,
        k,
    );
    let values = common::candidate_values(NS_LINEAR, "status_value"@, v);
    let own = common::candidate_value(NS_LINEAR, "status_value"@, v[k]);
    let n = choose|n: int| 0 <= n < values.len() && values[n] == own;
    let label = common::plain_label(label_id("status"@), "Status"@, "circle"@, values);
    assert(label_list(src)[0] == label);
    assert(label.values_order[n] == own.id);
}

// ---------------------------------------------------------------------------
// Items
// ---------------------------------------------------------------------------

/// Whether an item with the id is among the items.
pub open spec fn has_id(items: Seq<ExportItem>, id: Seq<char>) -> bool {
    exists|j: int| 0 <= j < items.len() && (#[trigger] items[j]).id@ == id
}

proof fn lemma_has_issue(e: SpaceExport, src: LinearWorkspace, now: Seq<char>, id: Seq<char>)
    requires
        export_is(e, src, now),
        issue_ids(src.issues@).contains(id),
    ensures
        has_id(e.items@, det(NS_LINEAR, "item"@, id)),
{
    let ids = issue_ids(src.issues@);
    let j = choose|j: int| 0 <= j < ids.len() && ids[j] == id;
    assert(item_fields(e.items@[j], src.issues@[j], src, space_of(src)));
}

proof fn lemma_blockers_inside(v: Seq<LinearRelation>, ids: Seq<Seq<char>>, k: int, b: int)
    requires
        0 <= b < blockers(v, ids, k).len(),
    ensures
        exists|id: Seq<char>| #[trigger]
            ids.contains(id) && det(NS_LINEAR, "item"@, id) == blockers(v, ids, k)[b],
    decreases v.len(),
{
    if v.len() > 0 {
        let rest = blockers(v.drop_last(), ids, k);
        if b < rest.len() {
            lemma_blockers_inside(v.drop_last(), ids, k, b);
        } else {
            assert(ids.contains((ends(v.last(), ids)->0).0));
        }
    }
}

proof fn lemma_duplicated_inside(v: Seq<LinearRelation>, ids: Seq<Seq<char>>, k: int)
    requires
        duplicated(v, ids, k) is Some,
    ensures
        exists|id: Seq<char>| #[trigger]
            ids.contains(id) && det(NS_LINEAR, "item"@, id) == duplicated(v, ids, k)->0,
    decreases v.len(),
{
    if v.len() > 0 {
        if let Some((a, b)) = ends(v.last(), ids) {
            assert(ids.contains(b));
        }
        if duplicated(v.drop_last(), ids, k) is Some {
            lemma_duplicated_inside(v.drop_last(), ids, k);
        }
    }
}

/// The items that block an item, and the one that it is a duplicate of, are items
/// of the export.
pub proof fn lemma_relations_meet(e: SpaceExport, src: LinearWorkspace, now: Seq<char>, k: int)
    requires
        export_is(e, src, now),
        0 <= k < e.items@.len(),
    ensures
        forall|b: int|
            0 <= b < e.items@[k].blocked_by@.len() ==> has_id(
                e.items@,
                (#[trigger] e.items@[k].blocked_by@[b])@,
            ),
        e.items@[k].duplicate_of is Some ==> has_id(e.items@, e.items@[k].duplicate_of->0@),
{
    let item = e.items@[k];
    let ids = issue_ids(src.issues@);
    let v = src.issue_relations@;
    assert(text::texts(item.blocked_by@) == blockers(v, ids, k));
    assert(text::opt_text(item.duplicate_of) == duplicated(v, ids, k));
    assert forall|b: int| 0 <= b < item.blocked_by@.len() implies has_id(
        e.items@,
        (#[trigger] item.blocked_by@[b])@,
    ) by {
        assert(text::texts(item.blocked_by@)[b] == item.blocked_by@[b]@);
        lemma_blockers_inside(v, ids, k, b);
        let id = choose|id: Seq<char>| #[trigger]
            ids.contains(id) && det(NS_LINEAR, "item"@, id) == blockers(v, ids, k)[b];
        lemma_has_issue(e, src, now, id);
    }
    if item.duplicate_of is Some {
        lemma_duplicated_inside(v, ids, k);
        let id = choose|id: Seq<char>| #[trigger]
            ids.contains(id) && det(NS_LINEAR, "item"@, id) == duplicated(v, ids, k)->0;
        lemma_has_issue(e, src, now, id);
    }
}

/// Every issue becomes one item, in order, with its number, its title and its times
/// as they are.
pub proof fn lemma_issues_kept(e: SpaceExport, src: LinearWorkspace, now: Seq<char>, k: int)
    requires
        export_is(e, src, now),
        0 <= k < src.issues@.len(),
    ensures
        e.items@.len() == src.issues@.len(),
        e.items@[k].short_id == Some(src.issues@[k].number),
        e.items@[k].title@ == src.issues@[k].title@,
        text::opt_text(e.items@[k].created_at) == text::opt_text(src.issues@[k].created_at),
        text::opt_text(e.items@[k].updated_at) == text::opt_text(src.issues@[k].updated_at),
        text::opt_text(e.items@[k].due_date) == text::opt_text(src.issues@[k].due_date),
{
    assert(item_fields(e.items@[k], src.issues@[k], src, space_of(src)));
}

proof fn lemma_comment_on(v: Seq<LinearComment>, ids: Seq<Seq<char>>, c: int, k: int)
    requires
        0 <= c < v.len(),
        comment_target(v[c], ids) == Some(k),
    ensures
        comments_on(v, ids, k).contains(v[c]),
    decreases v.len(),
{
    let rest = comments_on(v.drop_last(), ids, k);
    let all = comments_on(v, ids, k);
    if c < v.len() - 1 {
        assert(v.drop_last()[c] == v[c]);
        lemma_comment_on(v.drop_last(), ids, c, k);
        let j = choose|j: int| 0 <= j < rest.len() && rest[j] == v[c];
        assert(all[j] == v[c]);
    } else {
        assert(all[rest.len() as int] == v[c]);
    }
}

/// Every comment on an issue of the team is a comment on its item.
pub proof fn lemma_comments_kept(
    e: SpaceExport,
    src: LinearWorkspace,
    now: Seq<char>,
    c: int,
    k: int,
)
    requires
        export_is(e, src, now),
        0 <= c < src.comments@.len(),
        comment_target(src.comments@[c], issue_ids(src.issues@)) == Some(k),
    ensures
        0 <= k < e.items@.len(),
        exists|j: int|
            0 <= j < e.items@[k].comments@.len() && comment_is(
                #[trigger] e.items@[k].comments@[j],
                src.comments@[c],
                src.users@,
                space_of(src),
            ),
{
    let ids = issue_ids(src.issues@);
    let v = src.comments@;
    lemma_index_of(ids, ref_id(v[c].issue)->0);
    lemma_comment_on(v, ids, c, k);
    let on = comments_on(v, ids, k);
    let j = choose|j: int| 0 <= j < on.len() && on[j] == v[c];
    assert(comments_are(e.items@[k].comments@, on, src.users@, space_of(src)));
    assert(comment_is(e.items@[k].comments@[j], on[j], src.users@, space_of(src)));
}

/// What is noted does not depend on the time, but for the times of upload.
proof fn lemma_same_noted(
    g: Gathered,
    h: Gathered,
    v: Seq<Upload>,
    by: Seq<char>,
    at: Seq<char>,
    later: Seq<char>,
)
    requires
        same_gathered(g, h),
    ensures
        same_gathered(all_noted(g, v, by, at), all_noted(h, v, by, later)),
    decreases v.len(),
{
    if v.len() > 0 {
        lemma_same_noted(
            noted(g, v[0], by, at),
            noted(h, v[0], by, later),
            v.skip(1),
            by,
            at,
            later,
        );
    }
}

proof fn lemma_same_comments(
    a: Seq<ExportComment>,
    b: Seq<ExportComment>,
    v: Seq<LinearComment>,
    users: Seq<LinearUser>,
    space: Seq<char>,
)
    requires
        comments_are(a, v, users, space),
        comments_are(b, v, users, space),
    ensures
        same_comments(a, b),
{
    assert forall|i: int| 0 <= i < a.len() implies same_comment(#[trigger] a[i], b[i]) by {
        assert(comment_is(a[i], v[i], users, space));
        assert(comment_is(b[i], v[i], users, space));
        lemma_same_blob(a[i].content_yjs, b[i].content_yjs, rewritten(v[i].body@, space));
    }
}

proof fn lemma_same_fields(a: ExportItem, b: ExportItem, i: LinearIssue, src: LinearWorkspace)
    requires
        item_fields(a, i, src, space_of(src)),
        item_fields(b, i, src, space_of(src)),
        text::texts(a.blocked_by@) == text::texts(b.blocked_by@),
        text::opt_text(a.duplicate_of) == text::opt_text(b.duplicate_of),
    ensures
        same_item_fields(a, b),
{
    if let Some(d) = description_of(i) {
        lemma_same_blob(a.description_yjs, b.description_yjs, rewritten(d, space_of(src)));
    }
    assert(text::texts(a.assignee_team_ids@) =~= text::texts(b.assignee_team_ids@));
}

proof fn lemma_same_items(a: SpaceExport, b: SpaceExport, src: LinearWorkspace)
    requires
        items_are(a.items@, src),
        items_are(b.items@, src),
    ensures
        forall|k: int| 0 <= k < a.items@.len() ==> same_item(#[trigger] a.items@[k], b.items@[k]),
{
    let ids = issue_ids(src.issues@);
    assert forall|k: int| 0 <= k < a.items@.len() implies same_item(
        #[trigger] a.items@[k],
        b.items@[k],
    ) by {
        let (x, y) = (a.items@[k], b.items@[k]);
        assert(text::texts(x.blocked_by@) == text::texts(y.blocked_by@));
        lemma_same_fields(x, y, src.issues@[k], src);
        lemma_same_comments(
            x.comments@,
            y.comments@,
            comments_on(src.comments@, ids, k),
            src.users@,
            space_of(src),
        );
    }
}

proof fn lemma_same_documents(
    a: Seq<ExportDocument>,
    b: Seq<ExportDocument>,
    v: Seq<LinearDocument>,
    space: Seq<char>,
)
    requires
        documents_are(a, v, space),
        documents_are(b, v, space),
    ensures
        forall|i: int| 0 <= i < a.len() ==> same_document(#[trigger] a[i], b[i]),
{
    assert forall|i: int| 0 <= i < a.len() implies same_document(#[trigger] a[i], b[i]) by {
        assert(document_is(a[i], v[i], space));
        assert(document_is(b[i], v[i], space));
        lemma_same_blob(
            a[i].content_yjs,
            b[i].content_yjs,
            rewritten(common::or_empty(v[i].content), space),
        );
        assert(text::texts(a[i].owner_user_ids@) =~= text::texts(b[i].owner_user_ids@));
        assert(text::texts(a[i].owner_team_ids@) =~= text::texts(b[i].owner_team_ids@));
    }
}

/// Converting the same team again, at whatever time, gives the same export but for
/// the times at which it was made, the same warnings and the same URLs.
pub proof fn lemma_repeatable(
    a: LinearConversion,
    at: Seq<char>,
    b: LinearConversion,
    later: Seq<char>,
    src: LinearWorkspace,
)
    requires
        is_conversion(a, src, at),
        is_conversion(b, src, later),
    ensures
        same_export(a.export, b.export),
        text::texts(a.warnings@) == text::texts(b.warnings@),
        common::text_map(a.attachment_urls@) == common::text_map(b.attachment_urls@),
{
    let (x, y) = (a.export, b.export);
    lemma_same_noted(
        common::none_gathered(),
        common::none_gathered(),
        all_uploads(src),
        uploader(src.users@),
        at,
        later,
    );
    lemma_same_views(
        x.views,
        y.views,
        det(NS_LINEAR, "view"@, "by-status"@),
        label_id("status"@),
        cycle_view(src.cycles@),
    );
    lemma_same_items(x, y, src);
    lemma_same_documents(x.documents@, y.documents@, src.documents@, space_of(src));
    assert forall|i: int| 0 <= i < x.cycles@.len() implies same_cycle(
        #[trigger] x.cycles@[i],
        y.cycles@[i],
    ) by {
        assert(cycle_is(y.cycles@[i], src.cycles@[i]));
    }
    assert forall|i: int| 0 <= i < x.users@.len() implies same_user(
        #[trigger] x.users@[i],
        y.users@[i],
    ) by {
        assert(user_is(y.users@[i], src.users@[i]));
    }
    assert(x.teams@ =~= y.teams@);
}

/// A conversion can be imported: nothing is to be counted past the cycles.
pub proof fn lemma_importable(e: SpaceExport, src: LinearWorkspace, now: Seq<char>)
    requires
        export_is(e, src, now),
    ensures
        cycles_ok(e),
{
}

} // verus!
