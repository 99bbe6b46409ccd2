//! The labels of a converted Linear team.

use vstd::prelude::*;
use vstd::string::StringExecFns;

use crate::import::convert::common::{
    self, Candidate, CandidateView, LabelList, LabelView, add_text, candidate_view, candidate_views,
    det, det_id, is_known, known, label_for, put_text, text_map, with_text,
};
use crate::import::convert::linear::{
    LinearIssue, LinearLabelRef, LinearProject, LinearTeam, LinearWorkflowState, LinearWorkspace,
    NS_LINEAR,
};
use crate::str_map::StrMap;
use crate::template::types::TemplateLabels;
use crate::text;

verus! {

/// The color of values that have none.
pub open spec fn gray() -> Seq<char> {
    "#6B7280"@
}

pub open spec fn color_or_gray(c: Option<String>) -> Seq<char> {
    match c {
        Some(s) => s@,
        None => gray(),
    }
}

fn color_text(c: &Option<String>) -> (r: String)
    ensures
        r@ == color_or_gray(*c),
{
    match c {
        Some(s) => s.clone(),
        None => "#6B7280".to_owned(),
    }
}

// ---------------------------------------------------------------------------
// Status and priority
// ---------------------------------------------------------------------------

/// Whether a state of this type completes an issue.
pub open spec fn completes(state_type: Seq<char>) -> bool {
    state_type == "completed"@ || state_type == "canceled"@ || state_type == "duplicate"@
}

pub open spec fn state_candidate(s: LinearWorkflowState) -> CandidateView {
    CandidateView {
        id: s.id@,
        rank: s.position as int,
        by: ""@,
        name: s.name@,
        color: color_or_gray(s.color),
        done: completes(s.state_type@),
    }
}

pub open spec fn state_candidates(v: Seq<LinearWorkflowState>) -> Seq<CandidateView> {
    v.map_values(|s: LinearWorkflowState| state_candidate(s))
}

fn states_of(v: &Vec<LinearWorkflowState>) -> (r: Vec<Candidate>)
    ensures
        candidate_views(r@) == state_candidates(v@),
{
    let mut out: Vec<Candidate> = Vec::new();
    let mut i: usize = 0;
    while i < v.len()
        invariant
            i <= v@.len(),
            out@.len() == i,
            forall|k: int|
                0 <= k < i ==> candidate_view(#[trigger] out@[k]) == state_candidate(v@[k]),
        decreases v@.len() - i,
    {
        let s = &v[i];
        let done = text::str_eq(s.state_type.as_str(), "completed") || text::str_eq(
            s.state_type.as_str(),
            "canceled",
        ) || text::str_eq(s.state_type.as_str(), "duplicate");
        out.push(
            Candidate {
                id: s.id.clone(),
                rank: s.position,
                by: "".to_owned(),
                name: s.name.clone(),
                color: color_text(&s.color),
                done,
            },
        );
        i = i + 1;
    }
    assert(candidate_views(out@) =~= state_candidates(v@));
    out
}

/// The color of a priority.
pub open spec fn priority_color_of(level: int) -> Seq<char> {
    if level == 1 {
        "#EF4444"@
    } else if level == 2 {
        "#F97316"@
    } else if level == 3 {
        "#EAB308"@
    } else {
        gray()
    }
}

/// The name of a priority.
pub open spec fn priority_name_of(level: int) -> Seq<char> {
    if level == 1 {
        "Urgent"@
    } else if level == 2 {
        "High"@
    } else if level == 3 {
        "Medium"@
    } else {
        "Low"@
    }
}

pub open spec fn priority_candidate(level: int) -> CandidateView {
    CandidateView {
        id: text::int_text_of(level),
        rank: level,
        by: ""@,
        name: priority_name_of(level),
        color: priority_color_of(level),
        done: false,
    }
}

/// The four priorities, the most urgent first.
pub open spec fn priority_candidates() -> Seq<CandidateView> {
    seq![
        priority_candidate(1),
        priority_candidate(2),
        priority_candidate(3),
        priority_candidate(4),
    ]
}

/// The color of a priority.
pub fn priority_color(level: i64) -> (r: String)
    ensures
        r@ == priority_color_of(level as int),
{
    if level == 1 {
        "#EF4444".to_owned()
    } else if level == 2 {
        "#F97316".to_owned()
    } else if level == 3 {
        "#EAB308".to_owned()
    } else {
        "#6B7280".to_owned()
    }
}

fn priority(level: i64, name: &str) -> (r: Candidate)
    requires
        name@ == priority_name_of(level as int),
    ensures
        candidate_view(r) == priority_candidate(level as int),
{
    Candidate {
        id: text::int_text(level),
        rank: level,
        by: "".to_owned(),
        name: name.to_owned(),
        color: priority_color(level),
        done: false,
    }
}

fn priorities() -> (r: Vec<Candidate>)
    ensures
        candidate_views(r@) == priority_candidates(),
{
    let mut out: Vec<Candidate> = Vec::new();
    out.push(priority(1, "Urgent"));
    out.push(priority(2, "High"));
    out.push(priority(3, "Medium"));
    out.push(priority(4, "Low"));
    assert(candidate_views(out@) =~= priority_candidates());
    out
}

// ---------------------------------------------------------------------------
// Estimates
// ---------------------------------------------------------------------------

/// The name of an estimate in T-shirt sizes.
pub open spec fn tshirt_name_of(n: int) -> Seq<char> {
    if n == 1 {
        "XS"@
    } else if n == 2 {
        "S"@
    } else if n == 3 {
        "M"@
    } else if n == 5 {
        "L"@
    } else if n == 8 {
        "XL"@
    } else if n == 13 {
        "XXL"@
    } else if n == 21 {
        "XXXL"@
    } else {
        text::int_text_of(n)
    }
}

/// The name of an estimate in T-shirt sizes; a number that is no size stays a
/// number.
pub fn tshirt_name(n: i64) -> (r: String)
    ensures
        r@ == tshirt_name_of(n as int),
{
    if n == 1 {
        "XS".to_owned()
    } else if n == 2 {
        "S".to_owned()
    } else if n == 3 {
        "M".to_owned()
    } else if n == 5 {
        "L".to_owned()
    } else if n == 8 {
        "XL".to_owned()
    } else if n == 13 {
        "XXL".to_owned()
    } else if n == 21 {
        "XXXL".to_owned()
    } else {
        text::int_text(n)
    }
}

/// The estimate of an issue, where there is one that is not zero.
pub open spec fn estimate_of(i: LinearIssue) -> Option<i64> {
    match i.estimate {
        Some(e) => if e.is_zero {
            None
        } else {
            Some(e.units)
        },
        None => None,
    }
}

pub(crate) fn estimate(i: &LinearIssue) -> (r: Option<i64>)
    ensures
        r == estimate_of(*i),
{
    match &i.estimate {
        Some(e) => if e.is_zero {
            None
        } else {
            Some(e.units)
        },
        None => None,
    }
}

/// Whether the team estimates in T-shirt sizes.
pub open spec fn in_tshirt_sizes(t: LinearTeam) -> bool {
    match t.issue_estimation_type {
        Some(s) => common::lowered(s@) == "tshirt"@,
        None => false,
    }
}

fn uses_tshirt_sizes(t: &LinearTeam) -> (r: bool)
    ensures
        r == in_tshirt_sizes(*t),
{
    match &t.issue_estimation_type {
        Some(s) => {
            let chars = text::to_chars(s.as_str());
            let lowered = common::lower_text(chars.as_slice());
            text::equals(lowered.as_slice(), "tshirt")
        },
        None => false,
    }
}

pub open spec fn estimate_candidate(n: int, tshirt: bool) -> CandidateView {
    CandidateView {
        id: text::int_text_of(n),
        rank: n,
        by: ""@,
        name: if tshirt {
            tshirt_name_of(n)
        } else {
            text::int_text_of(n)
        },
        color: gray(),
        done: false,
    }
}

/// The estimates that the issues use, each once.
pub open spec fn estimate_candidates(v: Seq<LinearIssue>, tshirt: bool) -> Seq<CandidateView>
    decreases v.len(),
{
    if v.len() == 0 {
        seq![]
    } else {
        let rest = estimate_candidates(v.drop_last(), tshirt);
        match estimate_of(v.last()) {
            Some(n) => common::with_new(rest, estimate_candidate(n as int, tshirt)),
            None => rest,
        }
    }
}

fn estimates_of(v: &Vec<LinearIssue>, tshirt: bool) -> (r: Vec<Candidate>)
    ensures
        candidate_views(r@) == estimate_candidates(v@, tshirt),
{
    let mut out: Vec<Candidate> = Vec::new();
    let mut i: usize = 0;
    assert(v@.take(0) =~= seq![]);
    assert(candidate_views(out@) =~= seq![]);
    while i < v.len()
        invariant
            i <= v@.len(),
            candidate_views(out@) == estimate_candidates(v@.take(i as int), tshirt),
        decreases v@.len() - i,
    {
        assert(v@.take(i + 1).drop_last() =~= v@.take(i as int));
        if let Some(n) = estimate(&v[i]) {
            let name = if tshirt {
                tshirt_name(n)
            } else {
                text::int_text(n)
            };
            let c = Candidate {
                id: text::int_text(n),
                rank: n,
                by: "".to_owned(),
                name,
                color: "#6B7280".to_owned(),
                done: false,
            };
            common::add_new(&mut out, c);
        }
        i = i + 1;
    }
    assert(v@.take(v@.len() as int) =~= v@);
    out
}

// ---------------------------------------------------------------------------
// Projects
// ---------------------------------------------------------------------------

pub open spec fn project_candidate(p: LinearProject) -> CandidateView {
    CandidateView { id: p.id@, rank: 0, by: ""@, name: p.name@, color: gray(), done: false }
}

pub open spec fn project_candidates(v: Seq<LinearProject>) -> Seq<CandidateView> {
    v.map_values(|p: LinearProject| project_candidate(p))
}

fn projects_of(v: &Vec<LinearProject>) -> (r: Vec<Candidate>)
    ensures
        candidate_views(r@) == project_candidates(v@),
{
    let mut out: Vec<Candidate> = Vec::new();
    let mut i: usize = 0;
    while i < v.len()
        invariant
            i <= v@.len(),
            out@.len() == i,
            forall|k: int|
                0 <= k < i ==> candidate_view(#[trigger] out@[k]) == project_candidate(v@[k]),
        decreases v@.len() - i,
    {
        out.push(
            Candidate {
                id: v[i].id.clone(),
                rank: 0,
                by: "".to_owned(),
                name: v[i].name.clone(),
                color: "#6B7280".to_owned(),
                done: false,
            },
        );
        i = i + 1;
    }
    assert(candidate_views(out@) =~= project_candidates(v@));
    out
}

// ---------------------------------------------------------------------------
// Groups and tags
// ---------------------------------------------------------------------------

/// The labels of the issues, in order.
pub open spec fn issue_label_refs(v: Seq<LinearIssue>) -> Seq<LinearLabelRef>
    decreases v.len(),
{
    if v.len() == 0 {
        seq![]
    } else {
        issue_label_refs(v.drop_last()) + v.last().labels.nodes@
    }
}

/// All references to labels: those of the team and then those on issues.
pub open spec fn label_refs(src: LinearWorkspace) -> Seq<LinearLabelRef> {
    src.issue_labels@ + issue_label_refs(src.issues@)
}

/// What a list of references holds.
pub open spec fn derefs(v: Seq<&LinearLabelRef>) -> Seq<LinearLabelRef> {
    v.map_values(|r: &LinearLabelRef| *r)
}

fn all_refs<'a>(src: &'a LinearWorkspace) -> (r: Vec<&'a LinearLabelRef>)
    ensures
        derefs(r@) == label_refs(*src),
{
    let mut out: Vec<&'a LinearLabelRef> = Vec::new();
    let mut i: usize = 0;
    while i < src.issue_labels.len()
        invariant
            i <= src.issue_labels@.len(),
            derefs(out@) =~= src.issue_labels@.take(i as int),
        decreases src.issue_labels@.len() - i,
    {
        let ghost before = derefs(out@);
        out.push(&src.issue_labels[i]);
        assert(derefs(out@) =~= before.push(src.issue_labels@[i as int]));
        i = i + 1;
    }
    let ghost first = src.issue_labels@;
    let ghost issues = src.issues@;
    assert(first.take(first.len() as int) =~= first);
    assert(issues.take(0) =~= seq![]);
    assert(first + seq![] =~= first);
    let mut n: usize = 0;
    while n < src.issues.len()
        invariant
            n <= issues.len(),
            issues == src.issues@,
            derefs(out@) == first + issue_label_refs(issues.take(n as int)),
        decreases issues.len() - n,
    {
        let ghost before = derefs(out@);
        let nodes = &src.issues[n].labels.nodes;
        let mut k: usize = 0;
        assert(before + nodes@.take(0) =~= before);
        while k < nodes.len()
            invariant
                k <= nodes@.len(),
                derefs(out@) =~= before + nodes@.take(k as int),
            decreases nodes@.len() - k,
        {
            let ghost so_far = derefs(out@);
            out.push(&nodes[k]);
            assert(derefs(out@) =~= so_far.push(nodes@[k as int]));
            k = k + 1;
        }
        proof {
            assert(nodes@.take(nodes@.len() as int) =~= nodes@);
            assert(issues.take(n + 1).drop_last() =~= issues.take(n as int));
            assert(before + nodes@ =~= first + issue_label_refs(issues.take(n + 1)));
        }
        n = n + 1;
    }
    assert(issues.take(issues.len() as int) =~= issues);
    out
}

/// The group of each label that belongs to one: that of the first reference that
/// names one.
pub open spec fn parents_of(v: Seq<LinearLabelRef>) -> Map<Seq<char>, Seq<char>>
    decreases v.len(),
{
    if v.len() == 0 {
        Map::empty()
    } else {
        let rest = parents_of(v.drop_last());
        let l = v.last();
        match l.parent {
            Some(p) => if rest.contains_key(l.id@) {
                rest
            } else {
                rest.insert(l.id@, p.id@)
            },
            None => rest,
        }
    }
}

/// The groups, in the order in which they are first named.
pub open spec fn group_ids(v: Seq<LinearLabelRef>) -> Seq<Seq<char>>
    decreases v.len(),
{
    if v.len() == 0 {
        seq![]
    } else {
        let rest = group_ids(v.drop_last());
        match v.last().parent {
            Some(p) => with_text(rest, p.id@),
            None => rest,
        }
    }
}

/// The labels that belong to a group.
pub open spec fn child_ids(v: Seq<LinearLabelRef>) -> Seq<Seq<char>>
    decreases v.len(),
{
    if v.len() == 0 {
        seq![]
    } else {
        let rest = child_ids(v.drop_last());
        if v.last().parent is Some {
            with_text(rest, v.last().id@)
        } else {
            rest
        }
    }
}

/// All labels, groups among them as far as they are referred to themselves.
pub open spec fn seen_ids(v: Seq<LinearLabelRef>) -> Seq<Seq<char>>
    decreases v.len(),
{
    if v.len() == 0 {
        seq![]
    } else {
        with_text(seen_ids(v.drop_last()), v.last().id@)
    }
}

/// Whether a reference speaks of the label, and as of one in a group where only
/// those count.
pub open spec fn speaks_of(l: LinearLabelRef, id: Seq<char>, in_group: bool) -> bool {
    l.id@ == id && (in_group ==> l.parent is Some)
}

/// The first name of a label that is not empty.
pub open spec fn name_of(v: Seq<LinearLabelRef>, id: Seq<char>, in_group: bool) -> Seq<char>
    decreases v.len(),
{
    if v.len() == 0 {
        seq![]
    } else {
        let name = name_of(v.drop_last(), id, in_group);
        if name.len() == 0 && speaks_of(v.last(), id, in_group) {
            v.last().name@
        } else {
            name
        }
    }
}

/// The first color of a label.
pub open spec fn color_of(v: Seq<LinearLabelRef>, id: Seq<char>, in_group: bool) -> Option<String>
    decreases v.len(),
{
    if v.len() == 0 {
        None
    } else {
        let color = color_of(v.drop_last(), id, in_group);
        if color is None && speaks_of(v.last(), id, in_group) {
            v.last().color
        } else {
            color
        }
    }
}

/// The first name that a reference gives the group.
pub open spec fn parent_name_of(v: Seq<LinearLabelRef>, group: Seq<char>) -> Seq<char>
    decreases v.len(),
{
    if v.len() == 0 {
        seq![]
    } else {
        let name = parent_name_of(v.drop_last(), group);
        match v.last().parent {
            Some(p) => if name.len() == 0 && p.id@ == group {
                common::or_empty(p.name)
            } else {
                name
            },
            None => name,
        }
    }
}

/// The name of a group: what its labels call it, or what it is called itself, or
/// its id.
pub open spec fn group_name_of(v: Seq<LinearLabelRef>, group: Seq<char>) -> Seq<char> {
    common::or_if_empty(
        parent_name_of(v, group),
        common::or_if_empty(name_of(v, group, false), group),
    )
}

pub open spec fn label_candidate(v: Seq<LinearLabelRef>, id: Seq<char>, in_group: bool) -> CandidateView {
    CandidateView {
        id,
        rank: 0,
        by: id,
        name: name_of(v, id, in_group),
        color: color_or_gray(color_of(v, id, in_group)),
        done: false,
    }
}

/// Those of the labels that belong to the group.
pub open spec fn members(
    ids: Seq<Seq<char>>,
    v: Seq<LinearLabelRef>,
    group: Seq<char>,
) -> Seq<CandidateView>
    decreases ids.len(),
{
    if ids.len() == 0 {
        seq![]
    } else {
        let rest = members(ids.drop_last(), v, group);
        if parents_of(v)[ids.last()] == group {
            rest.push(label_candidate(v, ids.last(), true))
        } else {
            rest
        }
    }
}

/// The labels of a group.
pub open spec fn group_candidates(v: Seq<LinearLabelRef>, group: Seq<char>) -> Seq<CandidateView> {
    members(child_ids(v), v, group)
}

/// Those of the labels that neither are a group nor belong to one.
pub open spec fn standalone(ids: Seq<Seq<char>>, v: Seq<LinearLabelRef>) -> Seq<CandidateView>
    decreases ids.len(),
{
    if ids.len() == 0 {
        seq![]
    } else {
        let rest = standalone(ids.drop_last(), v);
        let id = ids.last();
        if group_ids(v).contains(id) || parents_of(v).contains_key(id) {
            rest
        } else {
            rest.push(label_candidate(v, id, false))
        }
    }
}

/// The labels that stand alone.
pub open spec fn tag_candidates(v: Seq<LinearLabelRef>) -> Seq<CandidateView> {
    standalone(seen_ids(v), v)
}

/// What is known of the labels.
pub struct Topology {
    pub parents: StrMap<String>,
    pub groups: Vec<String>,
    pub children: Vec<String>,
    pub seen: Vec<String>,
}

/// Whether `t` tells what the references say of groups and labels.
pub open spec fn topology_is(t: Topology, v: Seq<LinearLabelRef>) -> bool {
    &&& text_map(t.parents@) == parents_of(v)
    &&& text::texts(t.groups@) == group_ids(v)
    &&& text::texts(t.children@) == child_ids(v)
    &&& text::texts(t.seen@) == seen_ids(v)
}

/// Goes through all references to labels and finds which are groups, which belong
/// to one and which there are.
pub fn discover_label_topology(refs: &Vec<&LinearLabelRef>) -> (r: Topology)
    ensures
        topology_is(r, derefs(refs@)),
{
    let ghost all = derefs(refs@);
    let mut parents: StrMap<String> = StrMap::new();
    let mut groups: Vec<String> = Vec::new();
    let mut children: Vec<String> = Vec::new();
    let mut seen: Vec<String> = Vec::new();
    let mut i: usize = 0;
    assert(all.take(0) =~= seq![]);
    assert(text_map(parents@) =~= Map::empty());
    assert(text::texts(groups@) =~= seq![]);
    assert(text::texts(children@) =~= seq![]);
    assert(text::texts(seen@) =~= seq![]);
    while i < refs.len()
        invariant
            i <= refs@.len(),
            all == derefs(refs@),
            text_map(parents@) == parents_of(all.take(i as int)),
            text::texts(groups@) == group_ids(all.take(i as int)),
            text::texts(children@) == child_ids(all.take(i as int)),
            text::texts(seen@) == seen_ids(all.take(i as int)),
        decreases refs@.len() - i,
    {
        let l = refs[i];
        proof {
            assert(all.take(i + 1).drop_last() =~= all.take(i as int));
            assert(all.take(i + 1).last() == *l);
        }
        add_text(&mut seen, l.id.as_str());
        if let Some(p) = &l.parent {
            add_text(&mut groups, p.id.as_str());
            add_text(&mut children, l.id.as_str());
            assert(text_map(parents@).contains_key(l.id@) == parents@.contains_key(l.id@));
            if !parents.contains_key(l.id.as_str()) {
                put_text(&mut parents, l.id.clone(), p.id.clone());
            }
        }
        i = i + 1;
    }
    assert(all.take(all.len() as int) =~= all);
    Topology { parents, groups, children, seen }
}

fn find_name(refs: &Vec<&LinearLabelRef>, id: &str, in_group: bool) -> (r: String)
    ensures
        r@ == name_of(derefs(refs@), id@, in_group),
{
    let ghost all = derefs(refs@);
    let mut name = "".to_owned();
    let mut i: usize = 0;
    assert(all.take(0) =~= seq![]);
    proof {
        reveal_strlit("");
        assert(name@ =~= seq![]);
    }
    while i < refs.len()
        invariant
            i <= refs@.len(),
            all == derefs(refs@),
            name@ == name_of(all.take(i as int), id@, in_group),
        decreases refs@.len() - i,
    {
        let l = refs[i];
        proof {
            assert(all.take(i + 1).drop_last() =~= all.take(i as int));
            assert(all.take(i + 1).last() == *l);
        }
        if name.as_str().is_empty() && text::str_eq(l.id.as_str(), id) && (!in_group
            || l.parent.is_some()) {
            name = l.name.clone();
        }
        i = i + 1;
    }
    assert(all.take(all.len() as int) =~= all);
    name
}

fn find_color(refs: &Vec<&LinearLabelRef>, id: &str, in_group: bool) -> (r: Option<String>)
    ensures
        r == color_of(derefs(refs@), id@, in_group),
{
    let ghost all = derefs(refs@);
    let mut color: Option<String> = None;
    let mut i: usize = 0;
    assert(all.take(0) =~= seq![]);
    while i < refs.len()
        invariant
            i <= refs@.len(),
            all == derefs(refs@),
            color == color_of(all.take(i as int), id@, in_group),
        decreases refs@.len() - i,
    {
        let l = refs[i];
        proof {
            assert(all.take(i + 1).drop_last() =~= all.take(i as int));
            assert(all.take(i + 1).last() == *l);
        }
        if color.is_none() && text::str_eq(l.id.as_str(), id) && (!in_group || l.parent.is_some()) {
            color = l.color.clone();
        }
        i = i + 1;
    }
    assert(all.take(all.len() as int) =~= all);
    color
}

fn find_parent_name(refs: &Vec<&LinearLabelRef>, group: &str) -> (r: String)
    ensures
        r@ == parent_name_of(derefs(refs@), group@),
{
    let ghost all = derefs(refs@);
    let mut name = "".to_owned();
    let mut i: usize = 0;
    assert(all.take(0) =~= seq![]);
    proof {
        reveal_strlit("");
        assert(name@ =~= seq![]);
    }
    while i < refs.len()
        invariant
            i <= refs@.len(),
            all == derefs(refs@),
            name@ == parent_name_of(all.take(i as int), group@),
        decreases refs@.len() - i,
    {
        let l = refs[i];
        proof {
            assert(all.take(i + 1).drop_last() =~= all.take(i as int));
            assert(all.take(i + 1).last() == *l);
        }
        if let Some(p) = &l.parent {
            if name.as_str().is_empty() && text::str_eq(p.id.as_str(), group) {
                name = common::text_or_empty(&p.name);
            }
        }
        i = i + 1;
    }
    assert(all.take(all.len() as int) =~= all);
    name
}

fn group_name(refs: &Vec<&LinearLabelRef>, group: &str) -> (r: String)
    ensures
        r@ == group_name_of(derefs(refs@), group@),
{
    let given = find_parent_name(refs, group);
    if !given.as_str().is_empty() {
        return given;
    }
    let own = find_name(refs, group, false);
    common::text_or_if_empty(own.as_str(), group).to_owned()
}

fn label_for_id(refs: &Vec<&LinearLabelRef>, id: &str, in_group: bool) -> (r: Candidate)
    ensures
        candidate_view(r) == label_candidate(derefs(refs@), id@, in_group),
{
    let color = find_color(refs, id, in_group);
    Candidate {
        id: id.to_owned(),
        rank: 0,
        by: id.to_owned(),
        name: find_name(refs, id, in_group),
        color: color_text(&color),
        done: false,
    }
}

proof fn lemma_children_have_parents(v: Seq<LinearLabelRef>)
    ensures
        forall|k: Seq<char>| child_ids(v).contains(k) <==> #[trigger] parents_of(v).contains_key(k),
    decreases v.len(),
{
    if v.len() > 0 {
        let w = v.drop_last();
        lemma_children_have_parents(w);
        let l = v.last();
        assert forall|k: Seq<char>| child_ids(v).contains(k) <==> #[trigger] parents_of(
            v,
        ).contains_key(k) by {
            assert(child_ids(w).contains(k) <==> parents_of(w).contains_key(k));
            assert(child_ids(w).contains(l.id@) <==> parents_of(w).contains_key(l.id@));
            let c = child_ids(w);
            if l.parent is Some && !c.contains(l.id@) {
                let d = c.push(l.id@);
                assert(d[c.len() as int] == l.id@);
                if c.contains(k) {
                    let i = choose|i: int| 0 <= i < c.len() && c[i] == k;
                    assert(d[i] == k);
                }
            }
        }
    }
}

fn members_of(refs: &Vec<&LinearLabelRef>, t: &Topology, group: &str) -> (r: Vec<Candidate>)
    requires
        topology_is(*t, derefs(refs@)),
    ensures
        candidate_views(r@) == group_candidates(derefs(refs@), group@),
{
    let ghost all = derefs(refs@);
    let ghost ids = child_ids(all);
    let mut out: Vec<Candidate> = Vec::new();
    let mut i: usize = 0;
    assert(ids.take(0) =~= seq![]);
    assert(candidate_views(out@) =~= seq![]);
    while i < t.children.len()
        invariant
            i <= t.children@.len(),
            topology_is(*t, all),
            all == derefs(refs@),
            ids == child_ids(all),
            candidate_views(out@) == members(ids.take(i as int), all, group@),
        decreases t.children@.len() - i,
    {
        let ghost before = out@;
        let id = &t.children[i];
        proof {
            assert(text::texts(t.children@)[i as int] == id@);
            assert(ids.take(i + 1).drop_last() =~= ids.take(i as int));
            lemma_children_have_parents(all);
            assert(ids.contains(id@));
            assert(parents_of(all).contains_key(id@));
            assert(text_map(t.parents@).contains_key(id@));
            assert(text_map(t.parents@)[id@] == t.parents@[id@]@);
        }
        if let Some(p) = t.parents.get(id.as_str()) {
            if text::str_eq(p.as_str(), group) {
                out.push(label_for_id(refs, id.as_str(), true));
                assert(candidate_views(out@) =~= candidate_views(before).push(
                    label_candidate(all, id@, true),
                ));
            }
        }
        i = i + 1;
    }
    assert(ids.take(ids.len() as int) =~= ids);
    assert(text::texts(t.children@).len() == t.children@.len());
    out
}

fn has_text(v: &Vec<String>, s: &str) -> (r: bool)
    ensures
        r == text::texts(v@).contains(s@),
{
    let ghost all = text::texts(v@);
    let mut i: usize = 0;
    while i < v.len()
        invariant
            i <= v@.len(),
            all == text::texts(v@),
            forall|k: int| 0 <= k < i ==> #[trigger] all[k] != s@,
        decreases v@.len() - i,
    {
        assert(all[i as int] == v@[i as int]@);
        if text::str_eq(v[i].as_str(), s) {
            return true;
        }
        i = i + 1;
    }
    false
}

fn tags_of(refs: &Vec<&LinearLabelRef>, t: &Topology) -> (r: Vec<Candidate>)
    requires
        topology_is(*t, derefs(refs@)),
    ensures
        candidate_views(r@) == tag_candidates(derefs(refs@)),
{
    let ghost all = derefs(refs@);
    let ghost ids = seen_ids(all);
    let mut out: Vec<Candidate> = Vec::new();
    let mut i: usize = 0;
    assert(ids.take(0) =~= seq![]);
    assert(candidate_views(out@) =~= seq![]);
    while i < t.seen.len()
        invariant
            i <= t.seen@.len(),
            topology_is(*t, all),
            all == derefs(refs@),
            ids == seen_ids(all),
            candidate_views(out@) == standalone(ids.take(i as int), all),
        decreases t.seen@.len() - i,
    {
        let ghost before = out@;
        let id = &t.seen[i];
        proof {
            assert(text::texts(t.seen@)[i as int] == id@);
            assert(ids.take(i + 1).drop_last() =~= ids.take(i as int));
            assert(text_map(t.parents@).contains_key(id@) == t.parents@.contains_key(id@));
        }
        if !has_text(&t.groups, id.as_str()) && !t.parents.contains_key(id.as_str()) {
            out.push(label_for_id(refs, id.as_str(), false));
            assert(candidate_views(out@) =~= candidate_views(before).push(
                label_candidate(all, id@, false),
            ));
        }
        i = i + 1;
    }
    assert(ids.take(ids.len() as int) =~= ids);
    assert(text::texts(t.seen@).len() == t.seen@.len());
    out
}

// ---------------------------------------------------------------------------
// All labels
// ---------------------------------------------------------------------------

/// The label for a group.
pub open spec fn group_label(v: Seq<LinearLabelRef>, group: Seq<char>) -> Seq<LabelView> {
    label_for(
        NS_LINEAR,
        "group_value"@,
        det(NS_LINEAR, "group_label"@, group),
        group_name_of(v, group),
        "tag"@,
        group_candidates(v, group),
    )
}

/// The labels for the groups.
pub open spec fn group_labels(groups: Seq<Seq<char>>, v: Seq<LinearLabelRef>) -> Seq<LabelView>
    decreases groups.len(),
{
    if groups.len() == 0 {
        seq![]
    } else {
        group_labels(groups.drop_last(), v) + group_label(v, groups.last())
    }
}

/// The id of one of the labels that every team has.
pub open spec fn label_id(name: Seq<char>) -> Seq<char> {
    det(NS_LINEAR, "label"@, name)
}

/// The labels for status, priority, estimate and project.
pub open spec fn fixed_labels(src: LinearWorkspace) -> Seq<LabelView> {
    label_for(
        NS_LINEAR,
        "status_value"@,
        label_id("status"@),
        "Status"@,
        "circle"@,
        state_candidates(src.workflow_states@),
    ) + label_for(
        NS_LINEAR,
        "priority_value"@,
        label_id("priority"@),
        "Priority"@,
        "flag"@,
        priority_candidates(),
    ) + label_for(
        NS_LINEAR,
        "estimate_value"@,
        label_id("estimate"@),
        "Estimate"@,
        "gauge"@,
        estimate_candidates(src.issues@, in_tshirt_sizes(src.team)),
    ) + label_for(
        NS_LINEAR,
        "project_value"@,
        label_id("project"@),
        "Project"@,
        "folder"@,
        project_candidates(src.projects@),
    )
}

/// The label for the labels that stand alone.
pub open spec fn tags_label(v: Seq<LinearLabelRef>) -> Seq<LabelView> {
    label_for(
        NS_LINEAR,
        "tag_value"@,
        label_id("tags"@),
        "Tags"@,
        "tag"@,
        tag_candidates(v),
    )
}

/// The labels of a team: status, priority, estimate and project, one for each
/// group, and one for the labels that stand alone.
pub open spec fn label_list(src: LinearWorkspace) -> Seq<LabelView> {
    fixed_labels(src) + group_labels(group_ids(label_refs(src)), label_refs(src)) + tags_label(
        label_refs(src),
    )
}

/// The labels, and what is needed to set the values of issues.
pub struct LabelBuild {
    pub labels: TemplateLabels,
    pub states: Vec<Candidate>,
    pub projects: Vec<Candidate>,
    /// The group of each label that belongs to one.
    pub parents: StrMap<String>,
    pub tags: Vec<Candidate>,
}

/// Whether `b` was built from `src`.
pub open spec fn is_build(b: LabelBuild, src: LinearWorkspace) -> bool {
    &&& common::labels_view(b.labels) == common::labels_of(label_list(src), label_id("status"@))
    &&& candidate_views(b.states@) == state_candidates(src.workflow_states@)
    &&& candidate_views(b.projects@) == project_candidates(src.projects@)
    &&& text_map(b.parents@) == parents_of(label_refs(src))
    &&& candidate_views(b.tags@) == tag_candidates(label_refs(src))
}

fn add_fixed(list: &mut LabelList, label: &str, kind: &str, name: &str, icon: &str, v: &Vec<Candidate>)
    ensures
        forall|l: Seq<LabelView>| #[trigger]
            old(list).holds(l) ==> final(list).holds(
                l + label_for(
                    NS_LINEAR,
                    kind@,
                    label_id(label@),
                    name@,
                    icon@,
                    candidate_views(v@),
                ),
            ),
{
    let id = det_id(NS_LINEAR, "label", label);
    list.add_label(NS_LINEAR, kind, id.as_str(), name, icon, v);
}

fn add_groups(list: &mut LabelList, refs: &Vec<&LinearLabelRef>, t: &Topology)
    requires
        topology_is(*t, derefs(refs@)),
    ensures
        forall|l: Seq<LabelView>| #[trigger]
            old(list).holds(l) ==> final(list).holds(
                l + group_labels(group_ids(derefs(refs@)), derefs(refs@)),
            ),
{
    let ghost all = derefs(refs@);
    let ghost ids = group_ids(all);
    let ghost was = *list;
    let mut i: usize = 0;
    assert(ids.take(0) =~= seq![]);
    proof {
        assert forall|l: Seq<LabelView>| #[trigger] was.holds(l) implies list.holds(
            l + group_labels(ids.take(0), all),
        ) by {
            assert(l + seq![] =~= l);
        }
    }
    while i < t.groups.len()
        invariant
            i <= t.groups@.len(),
            topology_is(*t, all),
            all == derefs(refs@),
            ids == group_ids(all),
            forall|l: Seq<LabelView>| #[trigger]
                was.holds(l) ==> list.holds(l + group_labels(ids.take(i as int), all)),
        decreases t.groups@.len() - i,
    {
        let ghost before = *list;
        let group = &t.groups[i];
        let label = det_id(NS_LINEAR, "group_label", group.as_str());
        let name = group_name(refs, group.as_str());
        let v = members_of(refs, t, group.as_str());
        list.add_label(NS_LINEAR, "group_value", label.as_str(), name.as_str(), "tag", &v);
        proof {
            assert(text::texts(t.groups@)[i as int] == group@);
            let t1 = ids.take(i + 1);
            assert(t1.drop_last() =~= ids.take(i as int));
            assert forall|l: Seq<LabelView>| #[trigger] was.holds(l) implies list.holds(
                l + group_labels(t1, all),
            ) by {
                let m = l + group_labels(ids.take(i as int), all);
                assert(before.holds(m));
                assert(m + group_label(all, group@) =~= l + group_labels(t1, all));
            }
        }
        i = i + 1;
    }
    assert(ids.take(ids.len() as int) =~= ids);
    assert(text::texts(t.groups@).len() == t.groups@.len());
}

/// Builds the labels of a team.
pub fn build_labels(src: &LinearWorkspace) -> (r: LabelBuild)
    ensures
        is_build(r, *src),
{
    let states = states_of(&src.workflow_states);
    let levels = priorities();
    let tshirt = uses_tshirt_sizes(&src.team);
    let estimates = estimates_of(&src.issues, tshirt);
    let projects = projects_of(&src.projects);
    let refs = all_refs(src);
    let t = discover_label_topology(&refs);
    let tags = tags_of(&refs, &t);
    let ghost v = label_refs(*src);
    let mut list = LabelList::new();
    let ghost l0 = Seq::<LabelView>::empty();
    let ghost s1 = label_for(
        NS_LINEAR,
        "status_value"@,
        label_id("status"@),
        "Status"@,
        "circle"@,
        state_candidates(src.workflow_states@),
    );
    let ghost s2 = label_for(
        NS_LINEAR,
        "priority_value"@,
        label_id("priority"@),
        "Priority"@,
        "flag"@,
        priority_candidates(),
    );
    let ghost s3 = label_for(
        NS_LINEAR,
        "estimate_value"@,
        label_id("estimate"@),
        "Estimate"@,
        "gauge"@,
        estimate_candidates(src.issues@, in_tshirt_sizes(src.team)),
    );
    let ghost s4 = label_for(
        NS_LINEAR,
        "project_value"@,
        label_id("project"@),
        "Project"@,
        "folder"@,
        project_candidates(src.projects@),
    );
    let ghost s5 = group_labels(group_ids(v), v);
    assert(list.holds(l0));
    add_fixed(&mut list, "status", "status_value", "Status", "circle", &states);
    assert(list.holds(l0 + s1));
    add_fixed(&mut list, "priority", "priority_value", "Priority", "flag", &levels);
    assert(list.holds(l0 + s1 + s2));
    add_fixed(&mut list, "estimate", "estimate_value", "Estimate", "gauge", &estimates);
    assert(list.holds(l0 + s1 + s2 + s3));
    add_fixed(&mut list, "project", "project_value", "Project", "folder", &projects);
    assert(list.holds(l0 + s1 + s2 + s3 + s4));
    assert(l0 + s1 + s2 + s3 + s4 =~= fixed_labels(*src));
    add_groups(&mut list, &refs, &t);
    assert(list.holds(fixed_labels(*src) + s5));
    add_fixed(&mut list, "tags", "tag_value", "Tags", "tag", &tags);
    assert(list.holds(label_list(*src)));
    let status = det_id(NS_LINEAR, "label", "status");
    let labels = list.into_labels(status.as_str());
    LabelBuild { labels, states, projects, parents: t.parents, tags }
}

// ---------------------------------------------------------------------------
// The labels of an issue
// ---------------------------------------------------------------------------

/// How many of the labels stand alone.
pub open spec fn tag_count(
    nodes: Seq<LinearLabelRef>,
    parents: Map<Seq<char>, Seq<char>>,
    tags: Seq<CandidateView>,
) -> int
    decreases nodes.len(),
{
    if nodes.len() == 0 {
        0
    } else {
        let n = tag_count(nodes.drop_last(), parents, tags);
        let id = nodes.last().id@;
        if !parents.contains_key(id) && known(tags, id) {
            n + 1
        } else {
            n
        }
    }
}

/// The labels `m` with those of the issue: each group label has the last of its
/// values, and the tags the first.
pub open spec fn with_nodes(
    m: Map<Seq<char>, Seq<char>>,
    nodes: Seq<LinearLabelRef>,
    parents: Map<Seq<char>, Seq<char>>,
    tags: Seq<CandidateView>,
) -> Map<Seq<char>, Seq<char>>
    decreases nodes.len(),
{
    if nodes.len() == 0 {
        m
    } else {
        let rest = with_nodes(m, nodes.drop_last(), parents, tags);
        let id = nodes.last().id@;
        if parents.contains_key(id) {
            rest.insert(
                det(NS_LINEAR, "group_label"@, parents[id]),
                det(NS_LINEAR, "group_value"@, id),
            )
        } else if known(tags, id) && tag_count(nodes.drop_last(), parents, tags) == 0 {
            rest.insert(label_id("tags"@), det(NS_LINEAR, "tag_value"@, id))
        } else {
            rest
        }
    }
}

/// The labels of an issue.
pub open spec fn issue_labels(i: LinearIssue, src: LinearWorkspace) -> Map<Seq<char>, Seq<char>> {
    let m = Map::empty();
    let m = match i.state {
        Some(s) => if known(state_candidates(src.workflow_states@), s.id@) {
            m.insert(label_id("status"@), det(NS_LINEAR, "status_value"@, s.id@))
        } else {
            m
        },
        None => m,
    };
    let m = if 1 <= i.priority <= 4 {
        m.insert(
            label_id("priority"@),
            det(NS_LINEAR, "priority_value"@, text::int_text_of(i.priority as int)),
        )
    } else {
        m
    };
    let m = match estimate_of(i) {
        Some(n) => m.insert(
            label_id("estimate"@),
            det(NS_LINEAR, "estimate_value"@, text::int_text_of(n as int)),
        ),
        None => m,
    };
    let m = match i.project {
        Some(p) => if known(project_candidates(src.projects@), p.id@) {
            m.insert(label_id("project"@), det(NS_LINEAR, "project_value"@, p.id@))
        } else {
            m
        },
        None => m,
    };
    with_nodes(
        m,
        i.labels.nodes@,
        parents_of(label_refs(src)),
        tag_candidates(label_refs(src)),
    )
}

/// The warning for an issue of which more than one label stands alone.
pub open spec fn tag_warning(i: LinearIssue, src: LinearWorkspace) -> Seq<Seq<char>> {
    let n = tag_count(
        i.labels.nodes@,
        parents_of(label_refs(src)),
        tag_candidates(label_refs(src)),
    );
    let id = match i.identifier {
        Some(s) => s@,
        None => i.id@,
    };
    if n > 1 {
        seq![
            "issue "@ + id + " had "@ + text::decimal(n as nat)
                + " standalone labels; Tags keeps only the first ("@ + text::decimal((n - 1) as nat)
                + " dropped)"@,
        ]
    } else {
        seq![]
    }
}

proof fn lemma_tag_count(
    nodes: Seq<LinearLabelRef>,
    parents: Map<Seq<char>, Seq<char>>,
    tags: Seq<CandidateView>,
)
    ensures
        0 <= tag_count(nodes, parents, tags) <= nodes.len(),
    decreases nodes.len(),
{
    if nodes.len() > 0 {
        lemma_tag_count(nodes.drop_last(), parents, tags);
    }
}

/// Applies an issue's labels: those in groups, of which each group keeps one, and
/// those that stand alone, of which the first is kept. Gives how many those are.
fn apply_issue_labels(i: &LinearIssue, b: &LabelBuild, labels: &mut StrMap<String>) -> (r: usize)
    ensures
        text_map(final(labels)@) == with_nodes(
            text_map(old(labels)@),
            i.labels.nodes@,
            text_map(b.parents@),
            candidate_views(b.tags@),
        ),
        r == tag_count(i.labels.nodes@, text_map(b.parents@), candidate_views(b.tags@)),
{
    let nodes = &i.labels.nodes;
    let ghost all = nodes@;
    let ghost m = text_map(labels@);
    let ghost parents = text_map(b.parents@);
    let ghost tags = candidate_views(b.tags@);
    let mut count: usize = 0;
    let mut k: usize = 0;
    assert(all.take(0) =~= seq![]);
    while k < nodes.len()
        invariant
            k <= all.len(),
            all == nodes@,
            parents == text_map(b.parents@),
            tags == candidate_views(b.tags@),
            text_map(labels@) == with_nodes(m, all.take(k as int), parents, tags),
            count == tag_count(all.take(k as int), parents, tags),
            count <= k,
        decreases all.len() - k,
    {
        let id = &nodes[k].id;
        proof {
            assert(all.take(k + 1).drop_last() =~= all.take(k as int));
            assert(parents.contains_key(id@) == b.parents@.contains_key(id@));
            lemma_tag_count(all.take(k as int), parents, tags);
        }
        match b.parents.get(id.as_str()) {
            Some(group) => {
                put_text(
                    labels,
                    det_id(NS_LINEAR, "group_label", group.as_str()),
                    det_id(NS_LINEAR, "group_value", id.as_str()),
                );
            },
            None => {
                if is_known(&b.tags, id.as_str()) {
                    if count == 0 {
                        put_text(
                            labels,
                            det_id(NS_LINEAR, "label", "tags"),
                            det_id(NS_LINEAR, "tag_value", id.as_str()),
                        );
                    }
                    count = count + 1;
                }
            },
        }
        k = k + 1;
    }
    assert(all.take(all.len() as int) =~= all);
    count
}

/// The labels of an issue, and the warning that it gives rise to.
pub(crate) fn labels_of_issue(
    i: &LinearIssue,
    b: &LabelBuild,
    Ghost(src): Ghost<LinearWorkspace>,
    warnings: &mut Vec<String>,
) -> (r: StrMap<String>)
    requires
        is_build(*b, src),
    ensures
        text_map(r@) == issue_labels(*i, src),
        text::texts(final(warnings)@) == text::texts(old(warnings)@) + tag_warning(*i, src),
{
    let mut labels: StrMap<String> = StrMap::new();
    assert(text_map(labels@) =~= Map::empty());
    if let Some(s) = &i.state {
        if is_known(&b.states, s.id.as_str()) {
            put_text(
                &mut labels,
                det_id(NS_LINEAR, "label", "status"),
                det_id(NS_LINEAR, "status_value", s.id.as_str()),
            );
        }
    }
    if 1 <= i.priority && i.priority <= 4 {
        let level = text::int_text(i.priority);
        put_text(
            &mut labels,
            det_id(NS_LINEAR, "label", "priority"),
            det_id(NS_LINEAR, "priority_value", level.as_str()),
        );
    }
    if let Some(n) = estimate(i) {
        let units = text::int_text(n);
        put_text(
            &mut labels,
            det_id(NS_LINEAR, "label", "estimate"),
            det_id(NS_LINEAR, "estimate_value", units.as_str()),
        );
    }
    if let Some(p) = &i.project {
        if is_known(&b.projects, p.id.as_str()) {
            put_text(
                &mut labels,
                det_id(NS_LINEAR, "label", "project"),
                det_id(NS_LINEAR, "project_value", p.id.as_str()),
            );
        }
    }
    let count: usize = apply_issue_labels(i, b, &mut labels);
    let ghost before = text::texts(warnings@);
    if count > 1 {
        let id = match &i.identifier {
            Some(s) => s.as_str(),
            None => i.id.as_str(),
        };
        let dropped: usize = count - 1;
        let w = "issue ".to_owned().concat(id).concat(" had ").concat(
            text::nat_text(count as u64).as_str(),
        ).concat(" standalone labels; Tags keeps only the first (").concat(
            text::nat_text(dropped as u64).as_str(),
        ).concat(" dropped)");
        let ghost wv = w@;
        warnings.push(w);
        assert(text::texts(warnings@) =~= before.push(wv));
        assert(before.push(wv) =~= before + seq![wv]);
    } else {
        assert(before + seq![] =~= before);
    }
    labels
}

} // verus!
