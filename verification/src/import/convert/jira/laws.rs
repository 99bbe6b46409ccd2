//! What holds of every conversion of a Jira project.

use vstd::prelude::*;

use crate::export::types::{ExportComment, ExportItem, SpaceExport};
use crate::import::convert::common::{
    self, CandidateView, Gathered, all_offered, det, index_of, known, lemma_index_of, lemma_label_for,
    lemma_offers_append, offers,
};
use crate::import::convert::jira::conversion::{
    self, CommentRef, JiraConversion, LinkRef, blockers, comment_is, comment_ref, comments,
    comments_are, comments_on, duplicated, export_is, id_for_key, is_conversion, issue_comments,
    issue_ids, issue_keys, issue_links, item_fields, link_target, links, short_id_of,
};
use crate::import::convert::jira::labels::{
    component_candidates, component_of, issue_labels, label_id, label_list, label_of,
    points_candidates, points_text, priority_candidates, priority_of, status_candidate, status_candidates,
    tag_candidates, tag_of, type_candidates, with_value,
};
use crate::import::convert::jira::media::{
    all_minted, attachment_id, has_attachment, minted, resolved,
};
use crate::import::convert::jira::users;
use crate::import::convert::jira::{JiraAttachment, JiraIssue, JiraProject, NS_JIRA};
use crate::import::convert::same::{
    lemma_same_blob, lemma_same_views, same_attachment, same_comment, same_comments, same_cycle,
    same_export, same_gathered, same_item, same_item_fields, same_user,
};
use crate::import::space_config::cycles_ok;
use crate::text;

verus! {

proof fn lemma_with_value(
    list: Seq<common::LabelView>,
    m: Map<Seq<char>, Seq<char>>,
    key: Seq<char>,
    kind: Seq<char>,
    v: Seq<CandidateView>,
    id: Option<Seq<char>>,
)
    requires
        all_offered(list, m),
        serves(list, key, kind, v),
    ensures
        all_offered(list, with_value(m, key, kind, v, id)),
{
}

proof fn lemma_kind_offered(
    before: Seq<common::LabelView>,
    after: Seq<common::LabelView>,
    key: Seq<char>,
    kind: Seq<char>,
    name: Seq<char>,
    icon: Seq<char>,
    v: Seq<CandidateView>,
)
    ensures
        forall|i: Seq<char>| #[trigger]
            known(v, i) ==> offers(
                before + label_of(key, kind, name, icon, v) + after,
                label_id(key),
                det(NS_JIRA, kind, i),
            ),
{
    assert forall|i: Seq<char>| #[trigger] known(v, i) implies offers(
        before + label_of(key, kind, name, icon, v) + after,
        label_id(key),
        det(NS_JIRA, kind, i),
    ) by {
        let c = choose|c: int| 0 <= c < v.len() && (#[trigger] v[c]).id == i;
        lemma_label_for(NS_JIRA, kind, label_id(key), name, icon, v, c);
        let own = label_of(key, kind, name, icon, v);
        lemma_offers_append(before, own, label_id(key), det(NS_JIRA, kind, i));
        lemma_offers_append(before + own, after, label_id(key), det(NS_JIRA, kind, i));
    }
}

/// Whether the labels have a value for each of the candidates.
spec fn serves(
    list: Seq<common::LabelView>,
    key: Seq<char>,
    kind: Seq<char>,
    v: Seq<CandidateView>,
) -> bool {
    forall|i: Seq<char>| #[trigger]
        known(v, i) ==> offers(list, label_id(key), det(NS_JIRA, kind, i))
}

/// The labels of the project, split at one of them, have its values.
proof fn lemma_list_serves(
    list: Seq<common::LabelView>,
    before: Seq<common::LabelView>,
    after: Seq<common::LabelView>,
    key: Seq<char>,
    kind: Seq<char>,
    name: Seq<char>,
    icon: Seq<char>,
    v: Seq<CandidateView>,
)
    requires
        list == before + label_of(key, kind, name, icon, v) + after,
    ensures
        serves(list, key, kind, v),
{
    lemma_kind_offered(before, after, key, kind, name, icon, v);
}

pub(crate) proof fn lemma_regroup(
    a: Seq<common::LabelView>,
    b: Seq<common::LabelView>,
    c: Seq<common::LabelView>,
    d: Seq<common::LabelView>,
    e: Seq<common::LabelView>,
    f: Seq<common::LabelView>,
)
    ensures
        a + b + c + d + e + f == seq![] + a + (b + c + d + e + f),
        a + b + c + d + e + f == a + b + (c + d + e + f),
        a + b + c + d + e + f == (a + b) + c + (d + e + f),
        a + b + c + d + e + f == (a + b + c) + d + (e + f),
        a + b + c + d + e + f == (a + b + c + d) + e + f,
        a + b + c + d + e + f == (a + b + c + d + e) + f + seq![],
{
    assert(a + b + c + d + e + f =~= seq![] + a + (b + c + d + e + f));
    assert(a + b + c + d + e + f =~= a + b + (c + d + e + f));
    assert(a + b + c + d + e + f =~= (a + b) + c + (d + e + f));
    assert(a + b + c + d + e + f =~= (a + b + c) + d + (e + f));
    assert(a + b + c + d + e + f =~= (a + b + c + d + e) + f + seq![]);
}

/// Every value that an issue has of a label is a value of a label of the project.
pub proof fn lemma_issue_labels_offered(i: JiraIssue, v: Seq<JiraIssue>)
    ensures
        all_offered(label_list(v), issue_labels(i.fields, v)),
{
    let l = label_list(v);
    let a = label_of("status"@, "status_value"@, "Status"@, "circle"@, status_candidates(v));
    let b = label_of("priority"@, "priority_value"@, "Priority"@, "flag"@, priority_candidates(v));
    let c = label_of("type"@, "type_value"@, "Type"@, "tag"@, type_candidates(v));
    let d = label_of("component"@, "component_value"@, "Component"@, "folder"@, component_candidates(v));
    let e = label_of("tags"@, "tag_value"@, "Tags"@, "tag"@, tag_candidates(v));
    let f = label_of("estimate"@, "estimate_value"@, "Estimate"@, "gauge"@, points_candidates(v));
    lemma_regroup(a, b, c, d, e, f);
    lemma_list_serves(
        l,
        seq![],
        b + c + d + e + f,
        "status"@,
        "status_value"@,
        "Status"@,
        "circle"@,
        status_candidates(v),
    );
    lemma_list_serves(
        l,
        a,
        c + d + e + f,
        "priority"@,
        "priority_value"@,
        "Priority"@,
        "flag"@,
        priority_candidates(v),
    );
    lemma_list_serves(
        l,
        a + b,
        d + e + f,
        "type"@,
        "type_value"@,
        "Type"@,
        "tag"@,
        type_candidates(v),
    );
    lemma_list_serves(
        l,
        a + b + c,
        e + f,
        "component"@,
        "component_value"@,
        "Component"@,
        "folder"@,
        component_candidates(v),
    );
    lemma_list_serves(
        l,
        a + b + c + d,
        f,
        "tags"@,
        "tag_value"@,
        "Tags"@,
        "tag"@,
        tag_candidates(v),
    );
    lemma_list_serves(
        l,
        a + b + c + d + e,
        seq![],
        "estimate"@,
        "estimate_value"@,
        "Estimate"@,
        "gauge"@,
        points_candidates(v),
    );
    let fields = i.fields;
    let m0 = Map::empty();
    let m1 = with_value(m0, "status"@, "status_value"@, status_candidates(v), Some(fields.status.id@));
    lemma_with_value(l, m0, "status"@, "status_value"@, status_candidates(v), Some(fields.status.id@));
    let m2 = with_value(m1, "priority"@, "priority_value"@, priority_candidates(v), priority_of(fields));
    lemma_with_value(l, m1, "priority"@, "priority_value"@, priority_candidates(v), priority_of(fields));
    let m3 = with_value(m2, "type"@, "type_value"@, type_candidates(v), Some(fields.issuetype.name@));
    lemma_with_value(l, m2, "type"@, "type_value"@, type_candidates(v), Some(fields.issuetype.name@));
    let m4 = with_value(m3, "component"@, "component_value"@, component_candidates(v), component_of(fields));
    lemma_with_value(l, m3, "component"@, "component_value"@, component_candidates(v), component_of(fields));
    let m5 = with_value(m4, "tags"@, "tag_value"@, tag_candidates(v), tag_of(fields));
    lemma_with_value(l, m4, "tags"@, "tag_value"@, tag_candidates(v), tag_of(fields));
    let m6 = with_value(m5, "estimate"@, "estimate_value"@, points_candidates(v), points_text(fields));
    lemma_with_value(l, m5, "estimate"@, "estimate_value"@, points_candidates(v), points_text(fields));
}

/// Where no two labels share an id, every value that an item of a conversion has is
/// a value that the export defines.
pub proof fn lemma_labels_defined(
    e: SpaceExport,
    p: JiraProject,
    v: Seq<JiraIssue>,
    now: Seq<char>,
    k: int,
    label: Seq<char>,
)
    requires
        export_is(e, p, v, now),
        text::texts(e.labels.order@).no_duplicates(),
        0 <= k < e.items@.len(),
        e.items@[k].labels@.contains_key(label),
    ensures
        e.labels.definitions@.contains_key(label),
        e.labels.definitions@[label].values@.contains_key(e.items@[k].labels@[label]@),
{
    assert(item_fields(e.items@[k], v[k], v, conversion::space_of(p)));
    lemma_issue_labels_offered(v[k], v);
    let m = common::text_map(e.items@[k].labels@);
    assert(m == issue_labels(v[k].fields, v));
    assert(m.contains_key(label));
    common::lemma_offered_defined(e.labels, label_list(v), label_id("status"@), label, m[label]);
}

/// Every status of an issue becomes a value of the status label, and every value of
/// it is the status of an issue, which completes an item exactly where its category
/// is that of done issues.
pub proof fn lemma_statuses_kept(v: Seq<JiraIssue>)
    ensures
        forall|k: int|
            0 <= k < v.len() && (#[trigger] v[k]).fields.status.id@.len() > 0 ==> known(
                status_candidates(v),
                v[k].fields.status.id@,
            ),
        forall|c: int|
            0 <= c < status_candidates(v).len() ==> exists|k: int|
                0 <= k < v.len() && #[trigger] status_candidates(v)[c] == status_candidate(
                    (#[trigger] v[k]).fields.status,
                ),
    decreases v.len(),
{
    if v.len() > 0 {
        let before = v.drop_last();
        lemma_statuses_kept(before);
        let rest = status_candidates(before);
        let all = status_candidates(v);
        let own = status_candidate(v.last().fields.status);
        assert forall|k: int|
            0 <= k < v.len() && (#[trigger] v[k]).fields.status.id@.len() > 0 implies known(
            all,
            v[k].fields.status.id@,
        ) by {
            let id = v[k].fields.status.id@;
            if known(rest, id) {
                let c = choose|c: int| 0 <= c < rest.len() && (#[trigger] rest[c]).id == id;
                assert(all[c] == rest[c]);
            } else {
                if k < before.len() {
                    assert(before[k] == v[k]);
                }
                assert(all[rest.len() as int] == own);
            }
        }
        assert forall|c: int| 0 <= c < all.len() implies exists|k: int|
            0 <= k < v.len() && #[trigger] all[c] == status_candidate(
                (#[trigger] v[k]).fields.status,
            ) by {
            if c < rest.len() {
                assert(all[c] == rest[c]);
                let k = choose|k: int|
                    0 <= k < before.len() && rest[c] == status_candidate(
                        (#[trigger] before[k]).fields.status,
                    );
                assert(v[k] == before[k]);
            } else {
                assert(v[v.len() - 1] == v.last());
            }
        }
    }
}

/// Whether an item with the id is among the items.
pub open spec fn has_id(items: Seq<ExportItem>, id: Seq<char>) -> bool {
    exists|j: int| 0 <= j < items.len() && (#[trigger] items[j]).id@ == id
}

proof fn lemma_has_issue(e: SpaceExport, p: JiraProject, v: Seq<JiraIssue>, now: Seq<char>, j: int)
    requires
        export_is(e, p, v, now),
        0 <= j < v.len(),
    ensures
        has_id(e.items@, det(NS_JIRA, "item"@, v[j].id@)),
{
    assert(item_fields(e.items@[j], v[j], v, conversion::space_of(p)));
}

proof fn lemma_links_inside(v: Seq<JiraIssue>, n: int, k: int)
    requires
        0 <= n <= v.len(),
        0 <= k < links(v.take(n)).len(),
    ensures
        exists|j: int| 0 <= j < v.len() && (#[trigger] v[j]).id@ == links(v.take(n))[k].from,
    decreases n,
{
    if n > 0 {
        let before = links(v.take(n - 1));
        assert(v.take(n).drop_last() =~= v.take(n - 1));
        if k < before.len() {
            lemma_links_inside(v, n - 1, k);
        } else {
            let own = issue_links(v[n - 1]);
            assert(links(v.take(n))[k] == own[k - before.len()]);
            assert(own[k - before.len()].from == v[n - 1].id@);
        }
    } else {
        assert(v.take(0) =~= seq![]);
    }
}

proof fn lemma_target_inside(l: LinkRef, v: Seq<JiraIssue>)
    requires
        link_target(l, v) is Some,
    ensures
        exists|j: int| 0 <= j < v.len() && (#[trigger] v[j]).id@ == link_target(l, v)->0,
{
    let o = l.link.outward_issue->0;
    if issue_ids(v).contains(o.id@) {
        let j = choose|j: int| 0 <= j < issue_ids(v).len() && issue_ids(v)[j] == o.id@;
        assert(v[j].id@ == o.id@);
    } else {
        lemma_index_of(issue_keys(v), o.key@);
        let j = common::index_of(issue_keys(v), o.key@)->0;
        assert(v[j].id@ == id_for_key(v, o.key@)->0);
    }
}

proof fn lemma_blockers_inside(v: Seq<LinkRef>, all: Seq<JiraIssue>, k: int, b: int)
    requires
        0 <= b < blockers(v, all, k).len(),
    ensures
        exists|j: int|
            0 <= j < v.len() && det(NS_JIRA, "item"@, (#[trigger] v[j]).from) == blockers(
                v,
                all,
                k,
            )[b],
    decreases v.len(),
{
    if v.len() > 0 {
        let rest = blockers(v.drop_last(), all, k);
        if b < rest.len() {
            lemma_blockers_inside(v.drop_last(), all, k, b);
            let j = choose|j: int|
                0 <= j < v.drop_last().len() && det(
                    NS_JIRA,
                    "item"@,
                    (#[trigger] v.drop_last()[j]).from,
                ) == rest[b];
            assert(v[j] == v.drop_last()[j]);
        } else {
            assert(v[v.len() - 1] == v.last());
        }
    }
}

proof fn lemma_duplicated_inside(v: Seq<LinkRef>, all: Seq<JiraIssue>, k: int)
    requires
        duplicated(v, all, k) is Some,
    ensures
        exists|j: int|
            0 <= j < all.len() && det(NS_JIRA, "item"@, (#[trigger] all[j]).id@) == duplicated(
                v,
                all,
                k,
            )->0,
    decreases v.len(),
{
    if v.len() > 0 {
        let l = v.last();
        if link_target(l, all) is Some {
            lemma_target_inside(l, all);
        }
        if duplicated(v.drop_last(), all, k) is Some {
            lemma_duplicated_inside(v.drop_last(), all, k);
        }
    }
}

/// The items that block an item, and the one that it is a duplicate of, are items
/// of the export.
pub proof fn lemma_links_meet(
    e: SpaceExport,
    p: JiraProject,
    v: Seq<JiraIssue>,
    now: Seq<char>,
    k: int,
)
    requires
        export_is(e, p, v, now),
        0 <= k < e.items@.len(),
    ensures
        forall|b: int|
            0 <= b < e.items@[k].blocked_by@.len() ==> has_id(
                e.items@,
                (#[trigger] e.items@[k].blocked_by@[b])@,
            ),
        e.items@[k].duplicate_of is Some ==> has_id(e.items@, e.items@[k].duplicate_of->0@),
{
    let item = e.items@[k];
    let all = links(v);
    assert(text::texts(item.blocked_by@) == blockers(all, v, k));
    assert(text::opt_text(item.duplicate_of) == duplicated(all, v, k));
    assert forall|b: int| 0 <= b < item.blocked_by@.len() implies has_id(
        e.items@,
        (#[trigger] item.blocked_by@[b])@,
    ) by {
        assert(text::texts(item.blocked_by@)[b] == item.blocked_by@[b]@);
        lemma_blockers_inside(all, v, k, b);
        let j = choose|j: int|
            0 <= j < all.len() && det(NS_JIRA, "item"@, (#[trigger] all[j]).from) == blockers(
                all,
                v,
                k,
            )[b];
        assert(v.take(v.len() as int) =~= v);
        lemma_links_inside(v, v.len() as int, j);
        let i = choose|i: int| 0 <= i < v.len() && (#[trigger] v[i]).id@ == all[j].from;
        lemma_has_issue(e, p, v, now, i);
    }
    if item.duplicate_of is Some {
        lemma_duplicated_inside(all, v, k);
        let j = choose|j: int|
            0 <= j < v.len() && det(NS_JIRA, "item"@, (#[trigger] v[j]).id@) == duplicated(
                all,
                v,
                k,
            )->0;
        lemma_has_issue(e, p, v, now, j);
    }
}

/// Every issue becomes one item, in order, with its number, its title and its times
/// as they are.
pub proof fn lemma_issues_kept(
    e: SpaceExport,
    p: JiraProject,
    v: Seq<JiraIssue>,
    now: Seq<char>,
    k: int,
)
    requires
        export_is(e, p, v, now),
        0 <= k < v.len(),
    ensures
        e.items@.len() == v.len(),
        text::opt_i64(e.items@[k].short_id) == short_id_of(v[k].key@),
        e.items@[k].title@ == v[k].fields.summary@,
        text::opt_text(e.items@[k].created_at) == text::opt_text(v[k].fields.created),
        text::opt_text(e.items@[k].updated_at) == text::opt_text(v[k].fields.updated),
        text::opt_text(e.items@[k].due_date) == text::opt_text(v[k].fields.duedate),
{
    assert(item_fields(e.items@[k], v[k], v, conversion::space_of(p)));
}

proof fn lemma_comment_on(v: Seq<CommentRef>, ids: Seq<Seq<char>>, c: int, k: int)
    requires
        0 <= c < v.len(),
        index_of(ids, v[c].issue.id@) == Some(k),
    ensures
        comments_on(v, ids, k).contains(v[c]),
    decreases v.len(),
{
    let rest = comments_on(v.drop_last(), ids, k);
    let all = comments_on(v, ids, k);
    if c < v.len() - 1 {
        assert(v.drop_last()[c] == v[c]);
        lemma_comment_on(v.drop_last(), ids, c, k);
        let j = choose|j: int| 0 <= j < rest.len() && rest[j] == v[c];
        assert(all[j] == v[c]);
    } else {
        assert(all[rest.len() as int] == v[c]);
    }
}

proof fn lemma_comment_listed(v: Seq<JiraIssue>, i: int, c: int)
    requires
        0 <= i < v.len(),
        0 <= c < v[i].fields.comment.comments@.len(),
    ensures
        comments(v).contains(comment_ref(v[i], v[i].fields.comment.comments@[c])),
    decreases v.len(),
{
    let before = comments(v.drop_last());
    let own = issue_comments(v.last());
    let r = comment_ref(v[i], v[i].fields.comment.comments@[c]);
    if i < v.len() - 1 {
        assert(v.drop_last()[i] == v[i]);
        lemma_comment_listed(v.drop_last(), i, c);
        let j = choose|j: int| 0 <= j < before.len() && before[j] == r;
        assert(comments(v)[j] == r);
    } else {
        assert(own[c] == r);
        assert(comments(v)[before.len() + c] == r);
    }
}

/// Every comment on an issue is a comment on an item with the id of that issue.
pub proof fn lemma_comments_kept(
    e: SpaceExport,
    p: JiraProject,
    v: Seq<JiraIssue>,
    now: Seq<char>,
    i: int,
    c: int,
)
    requires
        export_is(e, p, v, now),
        0 <= i < v.len(),
        0 <= c < v[i].fields.comment.comments@.len(),
    ensures
        exists|k: int, j: int|
            0 <= k < e.items@.len() && (#[trigger] e.items@[k]).id@ == det(
                NS_JIRA,
                "item"@,
                v[i].id@,
            ) && 0 <= j < e.items@[k].comments@.len() && comment_is(
                #[trigger] e.items@[k].comments@[j],
                comment_ref(v[i], v[i].fields.comment.comments@[c]),
                conversion::space_of(p),
            ),
{
    let ids = issue_ids(v);
    let r = comment_ref(v[i], v[i].fields.comment.comments@[c]);
    lemma_comment_listed(v, i, c);
    let n = choose|n: int| 0 <= n < comments(v).len() && comments(v)[n] == r;
    lemma_index_of(ids, v[i].id@);
    assert(ids[i] == v[i].id@);
    let k = index_of(ids, v[i].id@)->0;
    lemma_comment_on(comments(v), ids, n, k);
    let on = comments_on(comments(v), ids, k);
    let j = choose|j: int| 0 <= j < on.len() && on[j] == r;
    assert(item_fields(e.items@[k], v[k], v, conversion::space_of(p)));
    assert(comments_are(e.items@[k].comments@, on, conversion::space_of(p)));
    assert(comment_is(e.items@[k].comments@[j], on[j], conversion::space_of(p)));
}

/// What is gathered does not depend on the time, but for the times of upload.
proof fn lemma_same_minted(
    g: Gathered,
    h: Gathered,
    v: Seq<JiraAttachment>,
    by: Seq<char>,
    at: Seq<char>,
    later: Seq<char>,
)
    requires
        same_gathered(g, h),
    ensures
        same_gathered(all_minted(g, v, by, at), all_minted(h, v, by, later)),
    decreases v.len(),
{
    if v.len() > 0 {
        let id = attachment_id(v[0]);
        assert(has_attachment(g, id) == has_attachment(h, id)) by {
            if has_attachment(g, id) {
                let i = choose|i: int| 0 <= i < g.list.len() && (#[trigger] g.list[i]).id == id;
                assert(same_attachment(g.list[i], h.list[i]));
                assert(h.list[i].id == id);
            }
            if has_attachment(h, id) {
                let i = choose|i: int| 0 <= i < h.list.len() && (#[trigger] h.list[i]).id == id;
                assert(same_attachment(g.list[i], h.list[i]));
                assert(g.list[i].id == id);
            }
        }
        lemma_same_minted(
            minted(g, v[0], by, at),
            minted(h, v[0], by, later),
            v.skip(1),
            by,
            at,
            later,
        );
    }
}

proof fn lemma_same_comments(
    a: Seq<ExportComment>,
    b: Seq<ExportComment>,
    v: Seq<CommentRef>,
    space: Seq<char>,
)
    requires
        comments_are(a, v, space),
        comments_are(b, v, space),
    ensures
        same_comments(a, b),
{
    assert forall|i: int| 0 <= i < a.len() implies same_comment(#[trigger] a[i], b[i]) by {
        assert(comment_is(a[i], v[i], space));
        assert(comment_is(b[i], v[i], space));
        lemma_same_blob(
            a[i].content_yjs,
            b[i].content_yjs,
            resolved(
                conversion::comment_markdown(v[i].comment),
                v[i].issue.fields.attachment@,
                space,
            ),
        );
    }
}

proof fn lemma_same_fields(
    a: ExportItem,
    b: ExportItem,
    i: JiraIssue,
    all: Seq<JiraIssue>,
    space: Seq<char>,
)
    requires
        item_fields(a, i, all, space),
        item_fields(b, i, all, space),
        text::texts(a.blocked_by@) == text::texts(b.blocked_by@),
        text::opt_text(a.duplicate_of) == text::opt_text(b.duplicate_of),
    ensures
        same_item_fields(a, b),
{
    if let Some(m) = conversion::description_of(i.fields) {
        lemma_same_blob(
            a.description_yjs,
            b.description_yjs,
            resolved(m, i.fields.attachment@, space),
        );
    }
    assert(text::texts(a.assignee_team_ids@) =~= text::texts(b.assignee_team_ids@));
}

proof fn lemma_same_items(a: SpaceExport, b: SpaceExport, v: Seq<JiraIssue>, space: Seq<char>)
    requires
        conversion::items_are(a.items@, v, space),
        conversion::items_are(b.items@, v, space),
    ensures
        forall|k: int| 0 <= k < a.items@.len() ==> same_item(#[trigger] a.items@[k], b.items@[k]),
{
    assert forall|k: int| 0 <= k < a.items@.len() implies same_item(
        #[trigger] a.items@[k],
        b.items@[k],
    ) by {
        let (x, y) = (a.items@[k], b.items@[k]);
        assert(text::texts(x.blocked_by@) == text::texts(y.blocked_by@));
        lemma_same_fields(x, y, v[k], v, space);
        lemma_same_comments(
            x.comments@,
            y.comments@,
            comments_on(comments(v), issue_ids(v), k),
            space,
        );
    }
}

/// Converting the same project again, at whatever time, gives the same export but for
/// the times at which it was made, the same warnings and the same URLs.
pub proof fn lemma_repeatable(
    a: JiraConversion,
    at: Seq<char>,
    b: JiraConversion,
    later: Seq<char>,
    p: JiraProject,
    v: Seq<JiraIssue>,
)
    requires
        is_conversion(a, p, v, at),
        is_conversion(b, p, v, later),
    ensures
        same_export(a.export, b.export),
        text::texts(a.warnings@) == text::texts(b.warnings@),
        common::text_map(a.attachment_urls@) == common::text_map(b.attachment_urls@),
{
    let (x, y) = (a.export, b.export);
    let people = users::all_persons(v);
    let all = users::accounts(people);
    assert forall|i: int| 0 <= i < x.users@.len() implies same_user(
        #[trigger] x.users@[i],
        y.users@[i],
    ) by {
        assert(users::user_is(y.users@[i], people, all[users::account_order(all)[i]]));
    }
    assert(conversion::stand_in(x.users@) == conversion::stand_in(y.users@)) by {
        if x.users@.len() > 0 {
            assert(same_user(x.users@[0], y.users@[0]));
        }
    }
    lemma_same_minted(
        common::none_gathered(),
        common::none_gathered(),
        conversion::item_attachments(v) + conversion::comment_attachments(comments(v)),
        conversion::stand_in(x.users@),
        at,
        later,
    );
    lemma_same_views(
        x.views,
        y.views,
        det(NS_JIRA, "view"@, "by-status"@),
        label_id("status"@),
        conversion::sprint_view(conversion::sprints(v)),
    );
    lemma_same_items(x, y, v, conversion::space_of(p));
    let (c, d) = (conversion::cycle_views(x.cycles@), conversion::cycle_views(y.cycles@));
    assert(c.len() == x.cycles@.len() && d.len() == y.cycles@.len());
    assert forall|i: int| 0 <= i < x.cycles@.len() implies same_cycle(
        #[trigger] x.cycles@[i],
        y.cycles@[i],
    ) by {
        assert(c[i] == conversion::cycle_view(x.cycles@[i]));
        assert(d[i] == conversion::cycle_view(y.cycles@[i]));
    }
    assert(x.documents@ =~= y.documents@);
    assert(x.teams@ =~= y.teams@);
}

/// A conversion can be imported: nothing is to be counted past the cycles.
pub proof fn lemma_importable(e: SpaceExport, p: JiraProject, v: Seq<JiraIssue>, now: Seq<char>)
    requires
        export_is(e, p, v, now),
    ensures
        cycles_ok(e),
{
}

} // verus!
