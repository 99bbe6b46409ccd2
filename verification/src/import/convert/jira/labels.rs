//! The labels of a converted Jira project.

use vstd::prelude::*;
use vstd::string::StringExecFns;

use crate::import::convert::common::{
    self, Candidate, CandidateView, LabelList, LabelView, add_new, candidate_view, candidate_views,
    det, det_id, is_known, known, label_for, put_text, text_map, with_new,
};
use crate::import::convert::jira::{
    JiraComponent, JiraFields, JiraIssue, JiraPriority, JiraStatus, NS_JIRA,
};
use crate::str_map::StrMap;
use crate::template::types::TemplateLabels;
use crate::text;

verus! {

/// The color of values that have none of their own.
pub open spec fn gray() -> Seq<char> {
    "#6B7280"@
}

/// The rank of a status category: new, then indeterminate, then done, then others.
pub open spec fn category_rank_of(key: Seq<char>) -> int {
    if key == "new"@ {
        0
    } else if key == "indeterminate"@ {
        1
    } else if key == "done"@ {
        2
    } else {
        3
    }
}

/// The rank of a status category.
pub fn category_rank(key: &str) -> (r: i64)
    ensures
        r == category_rank_of(key@),
{
    if text::str_eq(key, "new") {
        0
    } else if text::str_eq(key, "indeterminate") {
        1
    } else if text::str_eq(key, "done") {
        2
    } else {
        3
    }
}

/// The color of a status category.
pub open spec fn status_color_of(category: Seq<char>) -> Seq<char> {
    if category == "indeterminate"@ {
        "#3B82F6"@
    } else if category == "done"@ {
        "#22C55E"@
    } else {
        gray()
    }
}

/// The color of a status category.
pub fn status_color(category: &str) -> (r: String)
    ensures
        r@ == status_color_of(category@),
{
    if text::str_eq(category, "indeterminate") {
        "#3B82F6".to_owned()
    } else if text::str_eq(category, "done") {
        "#22C55E".to_owned()
    } else {
        "#6B7280".to_owned()
    }
}

/// The color of a priority.
pub open spec fn priority_color_of(id: Seq<char>) -> Seq<char> {
    if id == "1"@ {
        "#DC2626"@
    } else if id == "2"@ {
        "#EF4444"@
    } else if id == "3"@ {
        "#EAB308"@
    } else if id == "4"@ {
        "#3B82F6"@
    } else {
        gray()
    }
}

/// The color of a priority.
pub fn priority_color(id: &str) -> (r: String)
    ensures
        r@ == priority_color_of(id@),
{
    if text::str_eq(id, "1") {
        "#DC2626".to_owned()
    } else if text::str_eq(id, "2") {
        "#EF4444".to_owned()
    } else if text::str_eq(id, "3") {
        "#EAB308".to_owned()
    } else if text::str_eq(id, "4") {
        "#3B82F6".to_owned()
    } else {
        "#6B7280".to_owned()
    }
}

// ---------------------------------------------------------------------------
// Candidates
// ---------------------------------------------------------------------------

/// A status. It completes an issue by its category.
pub open spec fn status_candidate(s: JiraStatus) -> CandidateView {
    CandidateView {
        id: s.id@,
        rank: category_rank_of(s.status_category.key@),
        by: s.name@,
        name: s.name@,
        color: status_color_of(s.status_category.key@),
        done: s.status_category.key@ == "done"@,
    }
}

/// The statuses of the issues, each once.
pub open spec fn status_candidates(v: Seq<JiraIssue>) -> Seq<CandidateView>
    decreases v.len(),
{
    if v.len() == 0 {
        seq![]
    } else {
        with_new(status_candidates(v.drop_last()), status_candidate(v.last().fields.status))
    }
}

/// The number that a priority is ordered by: its id, where that is one.
pub open spec fn priority_rank(id: Seq<char>) -> int {
    match text::parse_int_of(id, i64::MIN as int, i64::MAX as int) {
        Some(n) => n,
        None => i64::MAX as int,
    }
}

/// A priority.
pub open spec fn priority_candidate(p: JiraPriority) -> CandidateView {
    CandidateView {
        id: p.id@,
        rank: priority_rank(p.id@),
        by: p.name@,
        name: p.name@,
        color: priority_color_of(p.id@),
        done: false,
    }
}

/// The priorities of the issues, each once.
pub open spec fn priority_candidates(v: Seq<JiraIssue>) -> Seq<CandidateView>
    decreases v.len(),
{
    if v.len() == 0 {
        seq![]
    } else {
        let rest = priority_candidates(v.drop_last());
        match v.last().fields.priority {
            Some(p) => with_new(rest, priority_candidate(p)),
            None => rest,
        }
    }
}

/// A value that is nothing but a name.
pub open spec fn name_candidate(name: Seq<char>) -> CandidateView {
    CandidateView { id: name, rank: 0, by: name, name, color: gray(), done: false }
}

/// The types of the issues, each once.
pub open spec fn type_candidates(v: Seq<JiraIssue>) -> Seq<CandidateView>
    decreases v.len(),
{
    if v.len() == 0 {
        seq![]
    } else {
        with_new(type_candidates(v.drop_last()), name_candidate(v.last().fields.issuetype.name@))
    }
}

/// A component.
pub open spec fn component_candidate(c: JiraComponent) -> CandidateView {
    CandidateView { id: c.id@, rank: 0, by: c.id@, name: c.name@, color: gray(), done: false }
}

/// The components `rest` with those of `v`.
pub open spec fn with_components(rest: Seq<CandidateView>, v: Seq<JiraComponent>) -> Seq<
    CandidateView,
>
    decreases v.len(),
{
    if v.len() == 0 {
        rest
    } else {
        with_new(with_components(rest, v.drop_last()), component_candidate(v.last()))
    }
}

/// The components of the issues, each once.
pub open spec fn component_candidates(v: Seq<JiraIssue>) -> Seq<CandidateView>
    decreases v.len(),
{
    if v.len() == 0 {
        seq![]
    } else {
        with_components(component_candidates(v.drop_last()), v.last().fields.components@)
    }
}

/// The tags `rest` with those of `v`.
pub open spec fn with_tags(rest: Seq<CandidateView>, v: Seq<String>) -> Seq<CandidateView>
    decreases v.len(),
{
    if v.len() == 0 {
        rest
    } else {
        with_new(with_tags(rest, v.drop_last()), name_candidate(v.last()@))
    }
}

/// The labels of the issues, each once.
pub open spec fn tag_candidates(v: Seq<JiraIssue>) -> Seq<CandidateView>
    decreases v.len(),
{
    if v.len() == 0 {
        seq![]
    } else {
        with_tags(tag_candidates(v.drop_last()), v.last().fields.labels@)
    }
}

/// An estimate in story points.
pub open spec fn points_candidate(rank: i64, name: Seq<char>) -> CandidateView {
    CandidateView { id: name, rank: rank as int, by: ""@, name, color: gray(), done: false }
}

/// The story points of the issues, each once.
pub open spec fn points_candidates(v: Seq<JiraIssue>) -> Seq<CandidateView>
    decreases v.len(),
{
    if v.len() == 0 {
        seq![]
    } else {
        let rest = points_candidates(v.drop_last());
        match v.last().fields.story_points {
            Some(p) => with_new(rest, points_candidate(p.rank, p.text@)),
            None => rest,
        }
    }
}

fn named(name: &str) -> (r: Candidate)
    ensures
        candidate_view(r) == name_candidate(name@),
{
    Candidate {
        id: name.to_owned(),
        rank: 0,
        by: name.to_owned(),
        name: name.to_owned(),
        color: "#6B7280".to_owned(),
        done: false,
    }
}

fn statuses_of(v: &[JiraIssue]) -> (r: Vec<Candidate>)
    ensures
        candidate_views(r@) == status_candidates(v@),
{
    let mut out: Vec<Candidate> = Vec::new();
    let mut i: usize = 0;
    assert(v@.take(0) =~= seq![]);
    assert(candidate_views(out@) =~= seq![]);
    while i < v.len()
        invariant
            i <= v@.len(),
            candidate_views(out@) == status_candidates(v@.take(i as int)),
        decreases v@.len() - i,
    {
        assert(v@.take(i + 1).drop_last() =~= v@.take(i as int));
        let s = &v[i].fields.status;
        let category = s.status_category.key.as_str();
        add_new(
            &mut out,
            Candidate {
                id: s.id.clone(),
                rank: category_rank(category),
                by: s.name.clone(),
                name: s.name.clone(),
                color: status_color(category),
                done: text::str_eq(category, "done"),
            },
        );
        i = i + 1;
    }
    assert(v@.take(v@.len() as int) =~= v@);
    out
}

fn rank_of_priority(id: &str) -> (r: i64)
    ensures
        r == priority_rank(id@),
{
    let chars = text::to_chars(id);
    match text::parse_i64(chars.as_slice()) {
        Some(n) => n,
        None => i64::MAX,
    }
}

fn priorities_of(v: &[JiraIssue]) -> (r: Vec<Candidate>)
    ensures
        candidate_views(r@) == priority_candidates(v@),
{
    let mut out: Vec<Candidate> = Vec::new();
    let mut i: usize = 0;
    assert(v@.take(0) =~= seq![]);
    assert(candidate_views(out@) =~= seq![]);
    while i < v.len()
        invariant
            i <= v@.len(),
            candidate_views(out@) == priority_candidates(v@.take(i as int)),
        decreases v@.len() - i,
    {
        assert(v@.take(i + 1).drop_last() =~= v@.take(i as int));
        if let Some(p) = &v[i].fields.priority {
            add_new(
                &mut out,
                Candidate {
                    id: p.id.clone(),
                    rank: rank_of_priority(p.id.as_str()),
                    by: p.name.clone(),
                    name: p.name.clone(),
                    color: priority_color(p.id.as_str()),
                    done: false,
                },
            );
        }
        i = i + 1;
    }
    assert(v@.take(v@.len() as int) =~= v@);
    out
}

fn types_of(v: &[JiraIssue]) -> (r: Vec<Candidate>)
    ensures
        candidate_views(r@) == type_candidates(v@),
{
    let mut out: Vec<Candidate> = Vec::new();
    let mut i: usize = 0;
    assert(v@.take(0) =~= seq![]);
    assert(candidate_views(out@) =~= seq![]);
    while i < v.len()
        invariant
            i <= v@.len(),
            candidate_views(out@) == type_candidates(v@.take(i as int)),
        decreases v@.len() - i,
    {
        assert(v@.take(i + 1).drop_last() =~= v@.take(i as int));
        add_new(&mut out, named(v[i].fields.issuetype.name.as_str()));
        i = i + 1;
    }
    assert(v@.take(v@.len() as int) =~= v@);
    out
}

fn components_of(v: &[JiraIssue]) -> (r: Vec<Candidate>)
    ensures
        candidate_views(r@) == component_candidates(v@),
{
    let mut out: Vec<Candidate> = Vec::new();
    let mut i: usize = 0;
    assert(v@.take(0) =~= seq![]);
    assert(candidate_views(out@) =~= seq![]);
    while i < v.len()
        invariant
            i <= v@.len(),
            candidate_views(out@) == component_candidates(v@.take(i as int)),
        decreases v@.len() - i,
    {
        let list = &v[i].fields.components;
        let ghost before = candidate_views(out@);
        let mut k: usize = 0;
        assert(list@.take(0) =~= seq![]);
        while k < list.len()
            invariant
                k <= list@.len(),
                candidate_views(out@) == with_components(before, list@.take(k as int)),
            decreases list@.len() - k,
        {
            assert(list@.take(k + 1).drop_last() =~= list@.take(k as int));
            let c = &list[k];
            add_new(
                &mut out,
                Candidate {
                    id: c.id.clone(),
                    rank: 0,
                    by: c.id.clone(),
                    name: c.name.clone(),
                    color: "#6B7280".to_owned(),
                    done: false,
                },
            );
            k = k + 1;
        }
        assert(list@.take(list@.len() as int) =~= list@);
        assert(v@.take(i + 1).drop_last() =~= v@.take(i as int));
        i = i + 1;
    }
    assert(v@.take(v@.len() as int) =~= v@);
    out
}

fn tags_of(v: &[JiraIssue]) -> (r: Vec<Candidate>)
    ensures
        candidate_views(r@) == tag_candidates(v@),
{
    let mut out: Vec<Candidate> = Vec::new();
    let mut i: usize = 0;
    assert(v@.take(0) =~= seq![]);
    assert(candidate_views(out@) =~= seq![]);
    while i < v.len()
        invariant
            i <= v@.len(),
            candidate_views(out@) == tag_candidates(v@.take(i as int)),
        decreases v@.len() - i,
    {
        let list = &v[i].fields.labels;
        let ghost before = candidate_views(out@);
        let mut k: usize = 0;
        assert(list@.take(0) =~= seq![]);
        while k < list.len()
            invariant
                k <= list@.len(),
                candidate_views(out@) == with_tags(before, list@.take(k as int)),
            decreases list@.len() - k,
        {
            assert(list@.take(k + 1).drop_last() =~= list@.take(k as int));
            add_new(&mut out, named(list[k].as_str()));
            k = k + 1;
        }
        assert(list@.take(list@.len() as int) =~= list@);
        assert(v@.take(i + 1).drop_last() =~= v@.take(i as int));
        i = i + 1;
    }
    assert(v@.take(v@.len() as int) =~= v@);
    out
}

fn points_of(v: &[JiraIssue]) -> (r: Vec<Candidate>)
    ensures
        candidate_views(r@) == points_candidates(v@),
{
    let mut out: Vec<Candidate> = Vec::new();
    let mut i: usize = 0;
    assert(v@.take(0) =~= seq![]);
    assert(candidate_views(out@) =~= seq![]);
    while i < v.len()
        invariant
            i <= v@.len(),
            candidate_views(out@) == points_candidates(v@.take(i as int)),
        decreases v@.len() - i,
    {
        assert(v@.take(i + 1).drop_last() =~= v@.take(i as int));
        if let Some(p) = &v[i].fields.story_points {
            add_new(
                &mut out,
                Candidate {
                    id: p.text.clone(),
                    rank: p.rank,
                    by: "".to_owned(),
                    name: p.text.clone(),
                    color: "#6B7280".to_owned(),
                    done: false,
                },
            );
        }
        i = i + 1;
    }
    assert(v@.take(v@.len() as int) =~= v@);
    out
}

// ---------------------------------------------------------------------------
// All labels
// ---------------------------------------------------------------------------

/// The id of a label.
pub open spec fn label_id(name: Seq<char>) -> Seq<char> {
    det(NS_JIRA, "label"@, name)
}

/// The label of the kind `key`, if it has values.
pub open spec fn label_of(
    key: Seq<char>,
    kind: Seq<char>,
    name: Seq<char>,
    icon: Seq<char>,
    v: Seq<CandidateView>,
) -> Seq<LabelView> {
    label_for(NS_JIRA, kind, label_id(key), name, icon, v)
}

/// The labels of a project: status, priority, type, component, tags and estimate,
/// as far as its issues use them.
pub open spec fn label_list(v: Seq<JiraIssue>) -> Seq<LabelView> {
    label_of("status"@, "status_value"@, "Status"@, "circle"@, status_candidates(v)) + label_of(
        "priority"@,
        "priority_value"@,
        "Priority"@,
        "flag"@,
        priority_candidates(v),
    ) + label_of("type"@, "type_value"@, "Type"@, "tag"@, type_candidates(v)) + label_of(
        "component"@,
        "component_value"@,
        "Component"@,
        "folder"@,
        component_candidates(v),
    ) + label_of("tags"@, "tag_value"@, "Tags"@, "tag"@, tag_candidates(v)) + label_of(
        "estimate"@,
        "estimate_value"@,
        "Estimate"@,
        "gauge"@,
        points_candidates(v),
    )
}

/// The labels, and the values that issues can have.
pub struct LabelBuild {
    pub labels: TemplateLabels,
    pub statuses: Vec<Candidate>,
    pub priorities: Vec<Candidate>,
    pub types: Vec<Candidate>,
    pub components: Vec<Candidate>,
    pub tags: Vec<Candidate>,
    pub points: Vec<Candidate>,
}

/// Whether `b` was built from the issues.
pub open spec fn is_build(b: LabelBuild, v: Seq<JiraIssue>) -> bool {
    &&& common::labels_view(b.labels) == common::labels_of(label_list(v), label_id("status"@))
    &&& candidate_views(b.statuses@) == status_candidates(v)
    &&& candidate_views(b.priorities@) == priority_candidates(v)
    &&& candidate_views(b.types@) == type_candidates(v)
    &&& candidate_views(b.components@) == component_candidates(v)
    &&& candidate_views(b.tags@) == tag_candidates(v)
    &&& candidate_views(b.points@) == points_candidates(v)
}

fn add(list: &mut LabelList, key: &str, kind: &str, name: &str, icon: &str, v: &Vec<Candidate>)
    ensures
        forall|l: Seq<LabelView>| #[trigger]
            old(list).holds(l) ==> final(list).holds(
                l + label_of(key@, kind@, name@, icon@, candidate_views(v@)),
            ),
{
    let id = det_id(NS_JIRA, "label", key);
    list.add_label(NS_JIRA, kind, id.as_str(), name, icon, v);
}

/// Builds the labels of a project.
pub fn build_labels(issues: &[JiraIssue]) -> (r: LabelBuild)
    ensures
        is_build(r, issues@),
{
    let statuses = statuses_of(issues);
    let priorities = priorities_of(issues);
    let types = types_of(issues);
    let components = components_of(issues);
    let tags = tags_of(issues);
    let points = points_of(issues);
    let mut list = LabelList::new();
    let ghost v = issues@;
    let ghost l0 = Seq::<LabelView>::empty();
    let ghost s1 = label_of(
        "status"@,
        "status_value"@,
        "Status"@,
        "circle"@,
        status_candidates(v),
    );
    let ghost s2 = label_of(
        "priority"@,
        "priority_value"@,
        "Priority"@,
        "flag"@,
        priority_candidates(v),
    );
    let ghost s3 = label_of("type"@, "type_value"@, "Type"@, "tag"@, type_candidates(v));
    let ghost s4 = label_of(
        "component"@,
        "component_value"@,
        "Component"@,
        "folder"@,
        component_candidates(v),
    );
    let ghost s5 = label_of("tags"@, "tag_value"@, "Tags"@, "tag"@, tag_candidates(v));
    let ghost s6 = label_of(
        "estimate"@,
        "estimate_value"@,
        "Estimate"@,
        "gauge"@,
        points_candidates(v),
    );
    assert(list.holds(l0));
    self::add(&mut list, "status", "status_value", "Status", "circle", &statuses);
    assert(list.holds(l0 + s1));
    self::add(&mut list, "priority", "priority_value", "Priority", "flag", &priorities);
    assert(list.holds(l0 + s1 + s2));
    self::add(&mut list, "type", "type_value", "Type", "tag", &types);
    assert(list.holds(l0 + s1 + s2 + s3));
    self::add(&mut list, "component", "component_value", "Component", "folder", &components);
    assert(list.holds(l0 + s1 + s2 + s3 + s4));
    self::add(&mut list, "tags", "tag_value", "Tags", "tag", &tags);
    assert(list.holds(l0 + s1 + s2 + s3 + s4 + s5));
    self::add(&mut list, "estimate", "estimate_value", "Estimate", "gauge", &points);
    assert(list.holds(l0 + s1 + s2 + s3 + s4 + s5 + s6));
    assert(l0 + s1 + s2 + s3 + s4 + s5 + s6 =~= label_list(v));
    let status = det_id(NS_JIRA, "label", "status");
    let labels = list.into_labels(status.as_str());
    LabelBuild { labels, statuses, priorities, types, components, tags, points }
}

// ---------------------------------------------------------------------------
// The labels of an issue
// ---------------------------------------------------------------------------

/// The labels with one more value, where it is one of those there are.
pub open spec fn with_value(
    m: Map<Seq<char>, Seq<char>>,
    key: Seq<char>,
    kind: Seq<char>,
    v: Seq<CandidateView>,
    id: Option<Seq<char>>,
) -> Map<Seq<char>, Seq<char>> {
    match id {
        Some(i) => if known(v, i) {
            m.insert(label_id(key), det(NS_JIRA, kind, i))
        } else {
            m
        },
        None => m,
    }
}

pub open spec fn priority_of(f: JiraFields) -> Option<Seq<char>> {
    match f.priority {
        Some(p) => Some(p.id@),
        None => None,
    }
}

/// The first component.
pub open spec fn component_of(f: JiraFields) -> Option<Seq<char>> {
    if f.components@.len() > 0 {
        Some(f.components@[0].id@)
    } else {
        None
    }
}

/// The first label.
pub open spec fn tag_of(f: JiraFields) -> Option<Seq<char>> {
    if f.labels@.len() > 0 {
        Some(f.labels@[0]@)
    } else {
        None
    }
}

pub open spec fn points_text(f: JiraFields) -> Option<Seq<char>> {
    match f.story_points {
        Some(p) => Some(p.text@),
        None => None,
    }
}

/// The labels of an issue.
pub open spec fn issue_labels(f: JiraFields, v: Seq<JiraIssue>) -> Map<Seq<char>, Seq<char>> {
    let m = Map::empty();
    let m = with_value(m, "status"@, "status_value"@, status_candidates(v), Some(f.status.id@));
    let m = with_value(
        m,
        "priority"@,
        "priority_value"@,
        priority_candidates(v),
        priority_of(f),
    );
    let m = with_value(m, "type"@, "type_value"@, type_candidates(v), Some(f.issuetype.name@));
    let m = with_value(
        m,
        "component"@,
        "component_value"@,
        component_candidates(v),
        component_of(f),
    );
    let m = with_value(m, "tags"@, "tag_value"@, tag_candidates(v), tag_of(f));
    with_value(m, "estimate"@, "estimate_value"@, points_candidates(v), points_text(f))
}

/// The warning for more than one value of a label that keeps one.
pub open spec fn surplus_warning(key: Seq<char>, n: int, what: Seq<char>) -> Seq<Seq<char>> {
    if n > 1 {
        seq![
            "issue "@ + key + " had "@ + text::decimal(n as nat) + what + " keeps only the first ("@
                + text::decimal((n - 1) as nat) + " dropped)"@,
        ]
    } else {
        seq![]
    }
}

/// The warnings for the labels of an issue.
pub open spec fn label_warnings(i: JiraIssue) -> Seq<Seq<char>> {
    surplus_warning(i.key@, i.fields.components@.len() as int, " components; Component"@)
        + surplus_warning(i.key@, i.fields.labels@.len() as int, " labels; Tags"@)
}

fn put_value(m: &mut StrMap<String>, key: &str, kind: &str, v: &Vec<Candidate>, id: Option<&str>)
    ensures
        text_map(final(m)@) == with_value(
            text_map(old(m)@),
            key@,
            kind@,
            candidate_views(v@),
            (match id {
                Some(i) => Some(i@),
                None => None,
            }),
        ),
{
    if let Some(i) = id {
        if is_known(v, i) {
            put_text(m, det_id(NS_JIRA, "label", key), det_id(NS_JIRA, kind, i));
        }
    }
}

fn warn_surplus(warnings: &mut Vec<String>, key: &str, n: usize, what: &str)
    ensures
        text::texts(final(warnings)@) == text::texts(old(warnings)@) + surplus_warning(
            key@,
            n as int,
            what@,
        ),
{
    let ghost before = text::texts(warnings@);
    if n > 1 {
        let dropped: usize = n - 1;
        let w = "issue ".to_owned().concat(key).concat(" had ").concat(
            text::nat_text(n as u64).as_str(),
        ).concat(what).concat(" keeps only the first (").concat(
            text::nat_text(dropped as u64).as_str(),
        ).concat(" dropped)");
        let ghost wv = w@;
        warnings.push(w);
        assert(text::texts(warnings@) =~= before.push(wv));
        assert(before.push(wv) =~= before + seq![wv]);
    } else {
        assert(before + seq![] =~= before);
    }
}

/// The labels of an issue. Of components and labels the first is kept.
pub(crate) fn labels_of_issue(
    i: &JiraIssue,
    b: &LabelBuild,
    Ghost(all): Ghost<Seq<JiraIssue>>,
    warnings: &mut Vec<String>,
) -> (r: StrMap<String>)
    requires
        is_build(*b, all),
    ensures
        text_map(r@) == issue_labels(i.fields, all),
        text::texts(final(warnings)@) == text::texts(old(warnings)@) + label_warnings(*i),
{
    let f = &i.fields;
    let mut m: StrMap<String> = StrMap::new();
    assert(text_map(m@) =~= Map::empty());
    put_value(&mut m, "status", "status_value", &b.statuses, Some(f.status.id.as_str()));
    let priority = match &f.priority {
        Some(p) => Some(p.id.as_str()),
        None => None,
    };
    put_value(&mut m, "priority", "priority_value", &b.priorities, priority);
    put_value(&mut m, "type", "type_value", &b.types, Some(f.issuetype.name.as_str()));
    let component = if f.components.len() > 0 {
        Some(f.components[0].id.as_str())
    } else {
        None
    };
    put_value(&mut m, "component", "component_value", &b.components, component);
    let ghost w = text::texts(warnings@);
    warn_surplus(warnings, i.key.as_str(), f.components.len(), " components; Component");
    let tag = if f.labels.len() > 0 {
        Some(f.labels[0].as_str())
    } else {
        None
    };
    put_value(&mut m, "tags", "tag_value", &b.tags, tag);
    warn_surplus(warnings, i.key.as_str(), f.labels.len(), " labels; Tags");
    assert(text::texts(warnings@) =~= w + label_warnings(*i));
    let points = match &f.story_points {
        Some(p) => Some(p.text.as_str()),
        None => None,
    };
    put_value(&mut m, "estimate", "estimate_value", &b.points, points);
    m
}

} // verus!
