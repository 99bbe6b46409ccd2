//! The conversion of a Jira project.

use vstd::prelude::*;
use vstd::slice::slice_subrange;
use vstd::string::StringExecFns;

use crate::calendar;
use crate::codec;
use crate::export::types::{
    ExportComment, ExportCycle, ExportItem, ExportMilestoneDef, ExportMilestones, ExportUser,
    SpaceExport,
};
use crate::import::convert::adf;
use crate::import::convert::common::{
    self, Attachments, Gathered, MilestoneView, MilestonesView, add_milestone, content_is, det,
    det_id, index_of, is_index, lemma_index_of, markdown_to_content_yjs, none_gathered, opt_det,
    or_empty, or_if_empty, position_of, text_map, text_or_empty, text_or_if_empty,
};
use crate::import::convert::jira::labels::{
    self, LabelBuild, build_labels, is_build, issue_labels, label_id, label_warnings,
    labels_of_issue,
};
use crate::import::convert::jira::media::{
    account_of, all_minted, filled, image_warnings, lemma_minted_append, mint_all, resolve_media,
    resolved, shown_in,
};
use crate::import::convert::jira::users::{self, collect_users};
use crate::import::convert::jira::{
    JiraAttachment, JiraComment, JiraFields, JiraIssue, JiraIssueLink, JiraProject, JiraSprint,
    JiraUser, JiraVersion, NS_JIRA,
};
use crate::json::Json;
use crate::str_map::StrMap;
use crate::text;

verus! {

/// The export of a project, and the attachments whose bytes are still to be fetched.
#[derive(Debug)]
pub struct JiraConversion {
    pub export: SpaceExport,
    /// Warnings about what was dropped.
    pub warnings: Vec<String>,
    /// The URL of the content of each attachment, by id.
    pub attachment_urls: StrMap<String>,
}

// ---------------------------------------------------------------------------
// Milestones and cycles
// ---------------------------------------------------------------------------

/// The fix versions of the issues, in order.
pub open spec fn versions(v: Seq<JiraIssue>) -> Seq<JiraVersion>
    decreases v.len(),
{
    if v.len() == 0 {
        seq![]
    } else {
        versions(v.drop_last()) + v.last().fields.fix_versions@
    }
}

pub open spec fn milestone_of(m: JiraVersion) -> MilestoneView {
    MilestoneView {
        id: det(NS_JIRA, "milestone"@, m.id@),
        name: m.name@,
        description: text::opt_text(m.description),
        deadline: text::opt_text(m.release_date),
        deprecated: false,
    }
}

/// The milestones, each id once.
pub open spec fn milestones_of(v: Seq<JiraVersion>) -> MilestonesView
    decreases v.len(),
{
    if v.len() == 0 {
        common::no_milestones()
    } else {
        common::with_milestone(milestones_of(v.drop_last()), milestone_of(v.last()))
    }
}

fn convert_versions(v: &[JiraIssue]) -> (r: ExportMilestones)
    ensures
        common::milestones_view(r) == milestones_of(versions(v@)),
{
    let mut out = common::new_milestones();
    let mut i: usize = 0;
    assert(v@.take(0) =~= seq![]);
    while i < v.len()
        invariant
            i <= v@.len(),
            common::milestones_view(out) == milestones_of(versions(v@.take(i as int))),
        decreases v@.len() - i,
    {
        let nodes = &v[i].fields.fix_versions;
        let ghost before = versions(v@.take(i as int));
        let mut k: usize = 0;
        assert(before + nodes@.take(0) =~= before);
        while k < nodes.len()
            invariant
                k <= nodes@.len(),
                common::milestones_view(out) == milestones_of(before + nodes@.take(k as int)),
            decreases nodes@.len() - k,
        {
            let m = &nodes[k];
            add_milestone(
                &mut out,
                ExportMilestoneDef {
                    id: det_id(NS_JIRA, "milestone", m.id.as_str()),
                    name: m.name.clone(),
                    description: m.description.clone(),
                    deadline: m.release_date.clone(),
                    deprecated: false,
                },
            );
            proof {
                let t = before + nodes@.take(k + 1);
                assert(t.drop_last() =~= before + nodes@.take(k as int));
                assert(t.last() == *m);
            }
            k = k + 1;
        }
        proof {
            assert(nodes@.take(nodes@.len() as int) =~= nodes@);
            assert(v@.take(i + 1).drop_last() =~= v@.take(i as int));
        }
        i = i + 1;
    }
    assert(v@.take(v@.len() as int) =~= v@);
    out
}

/// The id of a cycle.
pub open spec fn cycle_id_of(id: i64) -> Seq<char> {
    det(NS_JIRA, "cycle"@, text::int_text_of(id as int))
}

/// What a cycle says.
pub struct CycleView {
    pub id: Seq<char>,
    pub name: Seq<char>,
    pub start_date: Seq<char>,
    pub end_date: Seq<char>,
    pub archived: bool,
}

pub open spec fn cycle_view(c: ExportCycle) -> CycleView {
    CycleView {
        id: c.id@,
        name: c.name@,
        start_date: c.start_date@,
        end_date: c.end_date@,
        archived: c.archived,
    }
}

pub open spec fn cycle_views(v: Seq<ExportCycle>) -> Seq<CycleView> {
    v.map_values(|c: ExportCycle| cycle_view(c))
}

/// The cycle for a sprint.
pub open spec fn cycle_of(s: JiraSprint) -> CycleView {
    CycleView {
        id: cycle_id_of(s.id),
        name: or_if_empty(s.name@, "Sprint "@ + text::int_text_of(s.id as int)),
        start_date: or_empty(s.start_date),
        end_date: or_empty(s.end_date),
        archived: false,
    }
}

pub open spec fn has_cycle(v: Seq<CycleView>, id: Seq<char>) -> bool {
    exists|i: int| 0 <= i < v.len() && (#[trigger] v[i]).id == id
}

/// The cycles, each id once.
pub open spec fn cycles_of(v: Seq<JiraSprint>) -> Seq<CycleView>
    decreases v.len(),
{
    if v.len() == 0 {
        seq![]
    } else {
        let rest = cycles_of(v.drop_last());
        if has_cycle(rest, cycle_id_of(v.last().id)) {
            rest
        } else {
            rest.push(cycle_of(v.last()))
        }
    }
}

/// The sprints of an issue.
pub open spec fn issue_sprints(f: JiraFields) -> Seq<JiraSprint> {
    match f.sprints {
        Some(v) => v@,
        None => seq![],
    }
}

/// The sprints of the issues, in order.
pub open spec fn sprints(v: Seq<JiraIssue>) -> Seq<JiraSprint>
    decreases v.len(),
{
    if v.len() == 0 {
        seq![]
    } else {
        sprints(v.drop_last()) + issue_sprints(v.last().fields)
    }
}

fn add_cycle(out: &mut Vec<ExportCycle>, s: &JiraSprint)
    ensures
        cycle_views(final(out)@) == (if has_cycle(cycle_views(old(out)@), cycle_id_of(s.id)) {
            cycle_views(old(out)@)
        } else {
            cycle_views(old(out)@).push(cycle_of(*s))
        }),
{
    let number = text::int_text(s.id);
    let id = det_id(NS_JIRA, "cycle", number.as_str());
    let ghost all = cycle_views(out@);
    let mut i: usize = 0;
    while i < out.len()
        invariant
            i <= out@.len(),
            all == cycle_views(out@),
            all == cycle_views(old(out)@),
            id@ == cycle_id_of(s.id),
            forall|k: int| 0 <= k < i ==> (#[trigger] all[k]).id != id@,
        decreases out@.len() - i,
    {
        assert(all[i as int].id == out@[i as int].id@);
        if text::str_eq(out[i].id.as_str(), id.as_str()) {
            return ;
        }
        i = i + 1;
    }
    let generic = "Sprint ".to_owned().concat(number.as_str());
    let c = ExportCycle {
        id,
        name: text_or_if_empty(s.name.as_str(), generic.as_str()).to_owned(),
        start_date: text_or_empty(&s.start_date),
        end_date: text_or_empty(&s.end_date),
        archived: false,
    };
    let ghost cv = cycle_view(c);
    out.push(c);
    assert(cycle_views(out@) =~= all.push(cv));
}

fn convert_sprints(v: &[JiraIssue]) -> (r: Vec<ExportCycle>)
    ensures
        cycle_views(r@) == cycles_of(sprints(v@)),
{
    let mut out: Vec<ExportCycle> = Vec::new();
    let mut i: usize = 0;
    assert(v@.take(0) =~= seq![]);
    assert(cycle_views(out@) =~= seq![]);
    while i < v.len()
        invariant
            i <= v@.len(),
            cycle_views(out@) == cycles_of(sprints(v@.take(i as int))),
        decreases v@.len() - i,
    {
        let ghost before = sprints(v@.take(i as int));
        assert(before + seq![] =~= before);
        if let Some(list) = &v[i].fields.sprints {
            let mut k: usize = 0;
            assert(before + list@.take(0) =~= before);
            while k < list.len()
                invariant
                    k <= list@.len(),
                    cycle_views(out@) == cycles_of(before + list@.take(k as int)),
                decreases list@.len() - k,
            {
                add_cycle(&mut out, &list[k]);
                proof {
                    let t = before + list@.take(k + 1);
                    assert(t.drop_last() =~= before + list@.take(k as int));
                    assert(t.last() == list@[k as int]);
                }
                k = k + 1;
            }
            assert(list@.take(list@.len() as int) =~= list@);
        }
        assert(v@.take(i + 1).drop_last() =~= v@.take(i as int));
        i = i + 1;
    }
    assert(v@.take(v@.len() as int) =~= v@);
    out
}

// ---------------------------------------------------------------------------
// Small helpers
// ---------------------------------------------------------------------------

/// The number in an issue key.
pub open spec fn short_id_of(key: Seq<char>) -> Option<int> {
    match text::rfind_char_of(key, '-') {
        Some(i) => text::parse_int_of(key.skip(i + 1), i64::MIN as int, i64::MAX as int),
        None => None,
    }
}

/// The number in an issue key: 12 for `MTR-12`.
pub fn short_id_from_key(key: &str) -> (r: Option<i64>)
    ensures
        text::opt_i64(r) == short_id_of(key@),
{
    let chars = text::to_chars(key);
    match text::rfind_char(chars.as_slice(), '-') {
        Some(i) => {
            let len: usize = chars.len();
            assert(key@.skip(i + 1) =~= key@.subrange(i + 1, len as int));
            text::parse_i64(slice_subrange(chars.as_slice(), i + 1, len))
        },
        None => None,
    }
}

/// The keys of the issues.
pub open spec fn issue_keys(v: Seq<JiraIssue>) -> Seq<Seq<char>> {
    v.map_values(|i: JiraIssue| i.key@)
}

/// The ids of the issues.
pub open spec fn issue_ids(v: Seq<JiraIssue>) -> Seq<Seq<char>> {
    v.map_values(|i: JiraIssue| i.id@)
}

/// The id of the issue with a key.
pub open spec fn id_for_key(v: Seq<JiraIssue>, key: Seq<char>) -> Option<Seq<char>> {
    match index_of(issue_keys(v), key) {
        Some(k) => Some(v[k].id@),
        None => None,
    }
}

/// The id of the issue with a key, where there is a key.
pub open spec fn id_for_opt_key(v: Seq<JiraIssue>, key: Option<String>) -> Option<Seq<char>> {
    match key {
        Some(k) => id_for_key(v, k@),
        None => None,
    }
}

/// The parent of an issue: the one that it names by id or by key, or else the epic
/// that it names by key.
pub open spec fn parent_of(f: JiraFields, v: Seq<JiraIssue>) -> Option<Seq<char>> {
    match f.parent {
        Some(p) => if p.id@.len() > 0 {
            Some(p.id@)
        } else {
            match id_for_key(v, p.key@) {
                Some(id) => Some(id),
                None => id_for_opt_key(v, f.epic_link),
            }
        },
        None => id_for_opt_key(v, f.epic_link),
    }
}

fn find_id<'a>(v: &'a [JiraIssue], keys: &StrMap<usize>, key: &str) -> (r: Option<&'a str>)
    requires
        is_index(keys@, issue_keys(v@)),
    ensures
        match r {
            Some(s) => id_for_key(v@, key@) == Some(s@),
            None => id_for_key(v@, key@) is None,
        },
{
    match position_of(keys, Ghost(issue_keys(v@)), key) {
        Some(k) => Some(v[k].id.as_str()),
        None => None,
    }
}

/// Resolves the parent of an issue to the id of an issue.
fn parent_jira_id<'a>(f: &'a JiraFields, v: &'a [JiraIssue], keys: &StrMap<usize>) -> (r: Option<
    &'a str,
>)
    requires
        is_index(keys@, issue_keys(v@)),
    ensures
        match r {
            Some(s) => parent_of(*f, v@) == Some(s@),
            None => parent_of(*f, v@) is None,
        },
{
    if let Some(p) = &f.parent {
        if !p.id.as_str().is_empty() {
            return Some(p.id.as_str());
        }
        if let Some(id) = find_id(v, keys, p.key.as_str()) {
            return Some(id);
        }
    }
    match &f.epic_link {
        Some(k) => find_id(v, keys, k.as_str()),
        None => None,
    }
}

/// Whether a sprint is active.
pub open spec fn is_active(s: JiraSprint) -> bool {
    common::lowered(s.state@) == "active"@
}

/// The last active sprint.
pub open spec fn last_active(v: Seq<JiraSprint>) -> Option<i64>
    decreases v.len(),
{
    if v.len() == 0 {
        None
    } else if is_active(v.last()) {
        Some(v.last().id)
    } else {
        last_active(v.drop_last())
    }
}

/// The sprint that an issue belongs to: the last active one, or else the last.
pub open spec fn current_sprint(v: Seq<JiraSprint>) -> Option<i64> {
    match last_active(v) {
        Some(id) => Some(id),
        None => if v.len() > 0 {
            Some(v.last().id)
        } else {
            None
        },
    }
}

/// The cycle of an issue.
pub open spec fn cycle_for(f: JiraFields) -> Option<Seq<char>> {
    match current_sprint(issue_sprints(f)) {
        Some(id) => Some(cycle_id_of(id)),
        None => None,
    }
}

fn sprint_is_active(s: &JiraSprint) -> (r: bool)
    ensures
        r == is_active(*s),
{
    let chars = text::to_chars(s.state.as_str());
    let lowered = common::lower_text(chars.as_slice());
    text::equals(lowered.as_slice(), "active")
}

fn find_cycle(f: &JiraFields) -> (r: Option<String>)
    ensures
        text::opt_text(r) == cycle_for(*f),
{
    match &f.sprints {
        Some(v) => {
            let ghost all = v@;
            let len: usize = v.len();
            let mut n: usize = len;
            assert(all.take(len as int) =~= all);
            while n > 0 && !sprint_is_active(&v[n - 1])
                invariant
                    n <= len,
                    len == all.len(),
                    all == v@,
                    last_active(all) == last_active(all.take(n as int)),
                decreases n,
            {
                assert(all.take(n as int).drop_last() =~= all.take(n - 1));
                n = n - 1;
            }
            if n > 0 {
                Some(det_id(NS_JIRA, "cycle", text::int_text(v[n - 1].id).as_str()))
            } else if len > 0 {
                Some(det_id(NS_JIRA, "cycle", text::int_text(v[len - 1].id).as_str()))
            } else {
                None
            }
        },
        None => None,
    }
}

/// Who created an issue: the reporter, or else the creator, if that one has an
/// account.
pub open spec fn creator_of(f: JiraFields) -> Option<Seq<char>> {
    match f.reporter {
        Some(u) => account_of(Some(u)),
        None => account_of(f.creator),
    }
}

fn user_id(o: &Option<JiraUser>) -> (r: Option<String>)
    ensures
        text::opt_text(r) == opt_det(NS_JIRA, "user"@, account_of(*o)),
{
    match o {
        Some(u) => if u.account_id.as_str().is_empty() {
            None
        } else {
            Some(det_id(NS_JIRA, "user", u.account_id.as_str()))
        },
        None => None,
    }
}

// ---------------------------------------------------------------------------
// Items
// ---------------------------------------------------------------------------

/// The Markdown of a document, where there is one that is not null.
pub open spec fn markdown_in(o: Option<Json>) -> Option<Seq<char>> {
    match o {
        Some(Json::Null) => None,
        Some(n) => Some(adf::markdown_of(n)),
        None => None,
    }
}

fn to_markdown(o: &Option<Json>) -> (r: Option<String>)
    ensures
        text::opt_text(r) == markdown_in(*o),
{
    match o {
        Some(n) => match n {
            Json::Null => None,
            _ => Some(adf::adf_to_markdown(n)),
        },
        None => None,
    }
}

/// The Markdown of the description, where it is not blank.
pub open spec fn description_of(f: JiraFields) -> Option<Seq<char>> {
    match markdown_in(f.description) {
        Some(m) => if text::trim_of(m).len() == 0 {
            None
        } else {
            Some(m)
        },
        None => None,
    }
}

/// Whether the description of an item is that of the issue, with its images
/// resolved.
pub open spec fn description_is(o: ExportItem, f: JiraFields, space: Seq<char>) -> bool {
    match description_of(f) {
        Some(m) => {
            let body = resolved(m, f.attachment@, space);
            &&& text::opt_text(o.description_text) == Some(body)
            &&& content_is(o.description_yjs, body)
        },
        None => o.description_text is None && o.description_yjs is None,
    }
}

/// The one that a list of at most one holds.
pub open spec fn just(o: Option<Seq<char>>) -> Seq<Seq<char>> {
    match o {
        Some(s) => seq![s],
        None => seq![],
    }
}

/// The milestone of an issue: its first fix version.
pub open spec fn milestone_for(f: JiraFields) -> Option<Seq<char>> {
    if f.fix_versions@.len() > 0 {
        Some(det(NS_JIRA, "milestone"@, f.fix_versions@[0].id@))
    } else {
        None
    }
}

/// Whether `o` is the export of an issue, apart from links and comments.
pub open spec fn item_fields(
    o: ExportItem,
    i: JiraIssue,
    all: Seq<JiraIssue>,
    space: Seq<char>,
) -> bool {
    let f = i.fields;
    &&& o.id@ == det(NS_JIRA, "item"@, i.id@)
    &&& text::opt_i64(o.short_id) == short_id_of(i.key@)
    &&& o.title@ == f.summary@
    &&& description_is(o, f, space)
    &&& text_map(o.labels@) == issue_labels(f, all)
    &&& text::texts(o.assignee_user_ids@) == just(
        opt_det(NS_JIRA, "user"@, account_of(f.assignee)),
    )
    &&& o.assignee_team_ids@.len() == 0
    &&& text::opt_text(o.due_date) == text::opt_text(f.duedate)
    &&& o.start_date is None
    &&& text::opt_text(o.milestone_id) == milestone_for(f)
    &&& text::opt_text(o.cycle_id) == cycle_for(f)
    &&& text::opt_text(o.parent_id) == opt_det(NS_JIRA, "item"@, parent_of(f, all))
    &&& !o.archived
    &&& !o.deep_archived
    &&& text::opt_text(o.created_at) == text::opt_text(f.created)
    &&& text::opt_text(o.created_by) == opt_det(NS_JIRA, "user"@, creator_of(f))
    &&& text::opt_text(o.updated_at) == text::opt_text(f.updated)
    &&& o.archived_at is None
    &&& o.completion_prompt is None
    &&& o.completion_note_text is None
    &&& o.completion_note_yjs is None
}

/// The attachments that an issue gives rise to: those that its description shows,
/// and then all of its own.
pub open spec fn issue_attachments(f: JiraFields) -> Seq<JiraAttachment> {
    match description_of(f) {
        Some(m) => shown_in(m, f.attachment@) + f.attachment@,
        None => f.attachment@,
    }
}

/// The attachments that the issues give rise to, in order.
pub open spec fn item_attachments(v: Seq<JiraIssue>) -> Seq<JiraAttachment>
    decreases v.len(),
{
    if v.len() == 0 {
        seq![]
    } else {
        item_attachments(v.drop_last()) + issue_attachments(v.last().fields)
    }
}

/// The warnings that an issue gives rise to.
pub open spec fn issue_warnings(i: JiraIssue) -> Seq<Seq<char>> {
    match description_of(i.fields) {
        Some(m) => label_warnings(i) + image_warnings(m, i.fields.attachment@, i.key@),
        None => label_warnings(i),
    }
}

/// The warnings that the issues give rise to, in order.
pub open spec fn item_warnings(v: Seq<JiraIssue>) -> Seq<Seq<char>>
    decreases v.len(),
{
    if v.len() == 0 {
        seq![]
    } else {
        item_warnings(v.drop_last()) + issue_warnings(v.last())
    }
}

fn convert_issue(
    i: &JiraIssue,
    all: &[JiraIssue],
    b: &LabelBuild,
    keys: &StrMap<usize>,
    space: &str,
    by: &str,
    now: &str,
    atts: &mut Attachments,
    warnings: &mut Vec<String>,
) -> (r: ExportItem)
    requires
        is_build(*b, all@),
        is_index(keys@, issue_keys(all@)),
    ensures
        item_fields(r, *i, all@, space@),
        r.blocked_by@.len() == 0,
        r.duplicate_of is None,
        r.comments@.len() == 0,
        final(atts)@ == all_minted(old(atts)@, issue_attachments(i.fields), by@, now@),
        text::texts(final(warnings)@) == text::texts(old(warnings)@) + issue_warnings(*i),
{
    let f = &i.fields;
    let ghost g = atts@;
    let ghost w = text::texts(warnings@);
    let labels = labels_of_issue(i, b, Ghost(all@), warnings);
    let mut description_text: Option<String> = None;
    let mut description_yjs: Option<String> = None;
    if let Some(md) = to_markdown(&f.description) {
        if !common::is_blank(md.as_str()) {
            let body = resolve_media(
                md.as_str(),
                i.key.as_str(),
                &f.attachment,
                space,
                atts,
                by,
                now,
                warnings,
            );
            description_yjs = markdown_to_content_yjs(body.as_str());
            description_text = Some(body);
            proof {
                lemma_minted_append(g, shown_in(md@, f.attachment@), f.attachment@, by@, now@);
            }
        }
    }
    mint_all(&f.attachment, atts, by, now);
    assert(text::texts(warnings@) =~= w + issue_warnings(*i));
    let mut assignee_user_ids: Vec<String> = Vec::new();
    if let Some(a) = user_id(&f.assignee) {
        assignee_user_ids.push(a);
    }
    assert(text::texts(assignee_user_ids@) =~= just(
        opt_det(NS_JIRA, "user"@, account_of(f.assignee)),
    ));
    let created_by = if f.reporter.is_some() {
        user_id(&f.reporter)
    } else {
        user_id(&f.creator)
    };
    let parent_id = match parent_jira_id(f, all, keys) {
        Some(id) => Some(det_id(NS_JIRA, "item", id)),
        None => None,
    };
    let milestone_id = if f.fix_versions.len() > 0 {
        Some(det_id(NS_JIRA, "milestone", f.fix_versions[0].id.as_str()))
    } else {
        None
    };
    ExportItem {
        id: det_id(NS_JIRA, "item", i.id.as_str()),
        short_id: short_id_from_key(i.key.as_str()),
        title: f.summary.clone(),
        description_text,
        description_yjs,
        labels,
        assignee_user_ids,
        assignee_team_ids: Vec::new(),
        due_date: f.duedate.clone(),
        start_date: None,
        milestone_id,
        cycle_id: find_cycle(f),
        parent_id,
        blocked_by: Vec::new(),
        duplicate_of: None,
        archived: false,
        deep_archived: false,
        created_at: f.created.clone(),
        created_by,
        updated_at: f.updated.clone(),
        archived_at: None,
        completion_prompt: None,
        completion_note_text: None,
        completion_note_yjs: None,
        comments: Vec::new(),
    }
}

fn convert_issues(
    all: &[JiraIssue],
    b: &LabelBuild,
    keys: &StrMap<usize>,
    space: &str,
    by: &str,
    now: &str,
    atts: &mut Attachments,
    warnings: &mut Vec<String>,
) -> (r: Vec<ExportItem>)
    requires
        is_build(*b, all@),
        is_index(keys@, issue_keys(all@)),
    ensures
        r@.len() == all@.len(),
        forall|k: int|
            0 <= k < r@.len() ==> {
                &&& item_fields(#[trigger] r@[k], all@[k], all@, space@)
                &&& r@[k].blocked_by@.len() == 0
                &&& r@[k].duplicate_of is None
                &&& r@[k].comments@.len() == 0
            },
        final(atts)@ == all_minted(old(atts)@, item_attachments(all@), by@, now@),
        text::texts(final(warnings)@) == text::texts(old(warnings)@) + item_warnings(all@),
{
    let ghost v = all@;
    let ghost g = atts@;
    let ghost w = text::texts(warnings@);
    let mut out: Vec<ExportItem> = Vec::new();
    let mut i: usize = 0;
    assert(v.take(0) =~= seq![]);
    assert(w + seq![] =~= w);
    while i < all.len()
        invariant
            i <= v.len(),
            v == all@,
            is_build(*b, v),
            is_index(keys@, issue_keys(v)),
            out@.len() == i,
            forall|k: int|
                0 <= k < i ==> {
                    &&& item_fields(#[trigger] out@[k], v[k], v, space@)
                    &&& out@[k].blocked_by@.len() == 0
                    &&& out@[k].duplicate_of is None
                    &&& out@[k].comments@.len() == 0
                },
            atts@ == all_minted(g, item_attachments(v.take(i as int)), by@, now@),
            text::texts(warnings@) == w + item_warnings(v.take(i as int)),
        decreases v.len() - i,
    {
        proof {
            assert(v.take(i + 1).drop_last() =~= v.take(i as int));
            lemma_minted_append(
                g,
                item_attachments(v.take(i as int)),
                issue_attachments(v[i as int].fields),
                by@,
                now@,
            );
        }
        let item = convert_issue(&all[i], all, b, keys, space, by, now, atts, warnings);
        out.push(item);
        assert(text::texts(warnings@) =~= w + item_warnings(v.take(i + 1)));
        i = i + 1;
    }
    assert(v.take(v.len() as int) =~= v);
    out
}

// ---------------------------------------------------------------------------
// Links
// ---------------------------------------------------------------------------

/// A link, and the issue that lists it.
pub struct LinkRef {
    pub from: Seq<char>,
    pub link: JiraIssueLink,
}

pub open spec fn link_ref(from: Seq<char>, link: JiraIssueLink) -> LinkRef {
    LinkRef { from, link }
}

/// The links that an issue lists.
pub open spec fn issue_links(i: JiraIssue) -> Seq<LinkRef> {
    i.fields.issue_links@.map_values(|l: JiraIssueLink| link_ref(i.id@, l))
}

/// The links that the issues list, in order.
pub open spec fn links(v: Seq<JiraIssue>) -> Seq<LinkRef>
    decreases v.len(),
{
    if v.len() == 0 {
        seq![]
    } else {
        links(v.drop_last()) + issue_links(v.last())
    }
}

/// The issue that a link leads to, where it leads out of the issue that lists it to
/// one that is imported.
pub open spec fn link_target(l: LinkRef, all: Seq<JiraIssue>) -> Option<Seq<char>> {
    match l.link.outward_issue {
        Some(o) => if issue_ids(all).contains(o.id@) {
            Some(o.id@)
        } else {
            id_for_key(all, o.key@)
        },
        None => None,
    }
}

/// The items that block the item at `k`.
pub open spec fn blockers(v: Seq<LinkRef>, all: Seq<JiraIssue>, k: int) -> Seq<Seq<char>>
    decreases v.len(),
{
    if v.len() == 0 {
        seq![]
    } else {
        let rest = blockers(v.drop_last(), all, k);
        let l = v.last();
        match link_target(l, all) {
            Some(t) => if l.link.link_type.name@ == "Blocks"@ && index_of(issue_ids(all), t)
                == Some(k) {
                rest.push(det(NS_JIRA, "item"@, l.from))
            } else {
                rest
            },
            None => rest,
        }
    }
}

/// The item that the item at `k` is a duplicate of: that of the last such link.
pub open spec fn duplicated(v: Seq<LinkRef>, all: Seq<JiraIssue>, k: int) -> Option<Seq<char>>
    decreases v.len(),
{
    if v.len() == 0 {
        None
    } else {
        let rest = duplicated(v.drop_last(), all, k);
        let l = v.last();
        match link_target(l, all) {
            Some(t) => if l.link.link_type.name@ == "Duplicate"@ && index_of(
                issue_ids(all),
                l.from,
            ) == Some(k) {
                Some(det(NS_JIRA, "item"@, t))
            } else {
                rest
            },
            None => rest,
        }
    }
}

/// How many links lead out of the import.
pub open spec fn dropped_links(v: Seq<LinkRef>, all: Seq<JiraIssue>) -> int
    decreases v.len(),
{
    if v.len() == 0 {
        0
    } else {
        let rest = dropped_links(v.drop_last(), all);
        if v.last().link.outward_issue is Some && link_target(v.last(), all) is None {
            rest + 1
        } else {
            rest
        }
    }
}

/// The warning for links that lead out of the import.
pub open spec fn link_warning(n: int) -> Seq<Seq<char>> {
    if n > 0 {
        seq![
            text::decimal(filled_usize(n) as nat)
                + " issue link(s) referenced an issue outside the import and were dropped"@,
        ]
    } else {
        seq![]
    }
}

/// A count, as far as a `usize` goes.
pub open spec fn filled_usize(n: int) -> int {
    crate::filter_token::capped(n) as int
}

/// Whether the links of the items are those of `v`.
pub open spec fn linked(items: Seq<ExportItem>, v: Seq<LinkRef>, all: Seq<JiraIssue>) -> bool {
    forall|k: int|
        0 <= k < items.len() ==> {
            &&& text::texts((#[trigger] items[k]).blocked_by@) == blockers(v, all, k)
            &&& text::opt_text(items[k].duplicate_of) == duplicated(v, all, k)
        }
}

fn block(item: &mut ExportItem, by: String)
    ensures
        *final(item) == (ExportItem { blocked_by: final(item).blocked_by, ..*old(item) }),
        text::texts(final(item).blocked_by@) == text::texts(old(item).blocked_by@).push(by@),
{
    let ghost before = item.blocked_by@;
    item.blocked_by.push(by);
    assert(text::texts(item.blocked_by@) =~= text::texts(before).push(by@));
}

/// Whether two items differ in links and comments at most.
pub open spec fn same_fields(a: ExportItem, b: ExportItem) -> bool {
    a == (ExportItem {
        blocked_by: a.blocked_by,
        duplicate_of: a.duplicate_of,
        comments: a.comments,
        ..b
    })
}

/// Whether two lists of items differ in links at most.
pub open spec fn same_but_links(a: Seq<ExportItem>, b: Seq<ExportItem>) -> bool {
    a.len() == b.len() && forall|k: int|
        0 <= k < a.len() ==> same_fields(#[trigger] a[k], b[k]) && a[k].comments == b[k].comments
}

fn find_target<'a>(
    link: &'a JiraIssueLink,
    all: &'a [JiraIssue],
    ids: &StrMap<usize>,
    keys: &StrMap<usize>,
    Ghost(from): Ghost<Seq<char>>,
) -> (r: Option<&'a str>)
    requires
        is_index(ids@, issue_ids(all@)),
        is_index(keys@, issue_keys(all@)),
    ensures
        match r {
            Some(t) => link_target(link_ref(from, *link), all@) == Some(t@),
            None => link_target(link_ref(from, *link), all@) is None,
        },
{
    match &link.outward_issue {
        Some(o) => match position_of(ids, Ghost(issue_ids(all@)), o.id.as_str()) {
            Some(_) => Some(o.id.as_str()),
            None => find_id(all, keys, o.key.as_str()),
        },
        None => None,
    }
}

fn apply_link(
    items: &mut Vec<ExportItem>,
    from: &str,
    link: &JiraIssueLink,
    all: &[JiraIssue],
    ids: &StrMap<usize>,
    keys: &StrMap<usize>,
    Ghost(before): Ghost<Seq<LinkRef>>,
) -> (r: bool)
    requires
        is_index(ids@, issue_ids(all@)),
        is_index(keys@, issue_keys(all@)),
        old(items)@.len() == all@.len(),
        linked(old(items)@, before, all@),
    ensures
        same_but_links(final(items)@, old(items)@),
        linked(final(items)@, before.push(link_ref(from@, *link)), all@),
        r == (link.outward_issue is Some && link_target(link_ref(from@, *link), all@) is None),
{
    let ghost was = items@;
    let ghost t = before.push(link_ref(from@, *link));
    proof {
        assert(t.drop_last() =~= before);
        reveal_strlit("Blocks");
        reveal_strlit("Duplicate");
        assert("Blocks"@.len() != "Duplicate"@.len());
    }
    let target = find_target(link, all, ids, keys, Ghost(from@));
    match target {
        Some(other) => {
            if text::str_eq(link.link_type.name.as_str(), "Blocks") {
                if let Some(k) = position_of(ids, Ghost(issue_ids(all@)), other) {
                    block(&mut items[k], det_id(NS_JIRA, "item", from));
                    assert(items@ =~= was.update(k as int, items@[k as int]));
                }
            } else if text::str_eq(link.link_type.name.as_str(), "Duplicate") {
                if let Some(k) = position_of(ids, Ghost(issue_ids(all@)), from) {
                    let id = det_id(NS_JIRA, "item", other);
                    let item = &mut items[k];
                    item.duplicate_of = Some(id);
                }
            }
            false
        },
        None => link.outward_issue.is_some(),
    }
}

proof fn lemma_dropped_links(v: Seq<LinkRef>, all: Seq<JiraIssue>)
    ensures
        0 <= dropped_links(v, all) <= v.len(),
    decreases v.len(),
{
    if v.len() > 0 {
        lemma_dropped_links(v.drop_last(), all);
    }
}

fn apply_links(
    items: &mut Vec<ExportItem>,
    all: &[JiraIssue],
    ids: &StrMap<usize>,
    keys: &StrMap<usize>,
) -> (r: usize)
    requires
        is_index(ids@, issue_ids(all@)),
        is_index(keys@, issue_keys(all@)),
        old(items)@.len() == all@.len(),
        forall|k: int|
            0 <= k < old(items)@.len() ==> (#[trigger] old(items)@[k]).blocked_by@.len() == 0
                && old(items)@[k].duplicate_of is None,
    ensures
        same_but_links(final(items)@, old(items)@),
        linked(final(items)@, links(all@), all@),
        r == filled_usize(dropped_links(links(all@), all@)),
{
    let ghost was = items@;
    let ghost v = all@;
    let mut dropped: usize = 0;
    let mut i: usize = 0;
    proof {
        assert(v.take(0) =~= seq![]);
        assert forall|k: int| 0 <= k < items@.len() implies text::texts(
            (#[trigger] items@[k]).blocked_by@,
        ) == blockers(links(v.take(0)), v, k) by {
            assert(text::texts(items@[k].blocked_by@) =~= seq![]);
        }
    }
    while i < all.len()
        invariant
            i <= v.len(),
            v == all@,
            is_index(ids@, issue_ids(v)),
            is_index(keys@, issue_keys(v)),
            items@.len() == v.len(),
            same_but_links(items@, was),
            linked(items@, links(v.take(i as int)), v),
            dropped == filled_usize(dropped_links(links(v.take(i as int)), v)),
        decreases v.len() - i,
    {
        let issue = &all[i];
        let ghost before = links(v.take(i as int));
        let list = &issue.fields.issue_links;
        let mut k: usize = 0;
        assert(before + issue_links(*issue).take(0) =~= before);
        while k < list.len()
            invariant
                k <= list@.len(),
                list@ == issue.fields.issue_links@,
                v == all@,
                is_index(ids@, issue_ids(v)),
                is_index(keys@, issue_keys(v)),
                items@.len() == v.len(),
                same_but_links(items@, was),
                linked(items@, before + issue_links(*issue).take(k as int), v),
                dropped == filled_usize(
                    dropped_links(before + issue_links(*issue).take(k as int), v),
                ),
            decreases list@.len() - k,
        {
            let ghost so_far = before + issue_links(*issue).take(k as int);
            let ghost middle = items@;
            let lost = apply_link(
                items,
                issue.id.as_str(),
                &list[k],
                all,
                ids,
                keys,
                Ghost(so_far),
            );
            proof {
                let next = before + issue_links(*issue).take(k + 1);
                assert(next =~= so_far.push(link_ref(issue.id@, list@[k as int])));
                assert(next.drop_last() =~= so_far);
                lemma_dropped_links(so_far, v);
                assert forall|j: int| 0 <= j < items@.len() implies same_fields(
                    #[trigger] items@[j],
                    was[j],
                ) && items@[j].comments == was[j].comments by {
                    assert(same_fields(middle[j], was[j]));
                }
            }
            if lost {
                dropped = dropped.saturating_add(1);
            }
            k = k + 1;
        }
        proof {
            assert(issue_links(*issue).take(list@.len() as int) =~= issue_links(*issue));
            assert(v.take(i + 1).drop_last() =~= v.take(i as int));
        }
        i = i + 1;
    }
    assert(v.take(v.len() as int) =~= v);
    dropped
}

// ---------------------------------------------------------------------------
// Comments
// ---------------------------------------------------------------------------

/// A comment, and the issue that it is on.
pub struct CommentRef {
    pub issue: JiraIssue,
    pub comment: JiraComment,
}

pub open spec fn comment_ref(issue: JiraIssue, comment: JiraComment) -> CommentRef {
    CommentRef { issue, comment }
}

/// The comments on an issue.
pub open spec fn issue_comments(i: JiraIssue) -> Seq<CommentRef> {
    i.fields.comment.comments@.map_values(|c: JiraComment| comment_ref(i, c))
}

/// The comments on the issues, in order.
pub open spec fn comments(v: Seq<JiraIssue>) -> Seq<CommentRef>
    decreases v.len(),
{
    if v.len() == 0 {
        seq![]
    } else {
        comments(v.drop_last()) + issue_comments(v.last())
    }
}

/// The comments on the item at `k`, in order.
pub open spec fn comments_on(v: Seq<CommentRef>, ids: Seq<Seq<char>>, k: int) -> Seq<CommentRef>
    decreases v.len(),
{
    if v.len() == 0 {
        seq![]
    } else {
        let rest = comments_on(v.drop_last(), ids, k);
        if index_of(ids, v.last().issue.id@) == Some(k) {
            rest.push(v.last())
        } else {
            rest
        }
    }
}

/// The Markdown of a comment.
pub open spec fn comment_markdown(c: JiraComment) -> Seq<char> {
    match markdown_in(c.body) {
        Some(m) => m,
        None => ""@,
    }
}

/// The name of an author, where there is one that is not empty.
pub open spec fn author_name_of(o: Option<JiraUser>) -> Option<Seq<char>> {
    match o {
        Some(u) => if u.display_name@.len() == 0 {
            None
        } else {
            Some(u.display_name@)
        },
        None => None,
    }
}

/// Whether `o` is the export of a comment. Comments are flat: none has a parent.
pub open spec fn comment_is(o: ExportComment, r: CommentRef, space: Seq<char>) -> bool {
    let c = r.comment;
    let body = resolved(comment_markdown(c), r.issue.fields.attachment@, space);
    &&& o.id@ == det(NS_JIRA, "comment"@, c.id@)
    &&& o.author_id@ == (match account_of(c.author) {
        Some(a) => det(NS_JIRA, "user"@, a),
        None => codec::nil_uuid_text(),
    })
    &&& text::opt_text(o.author_name) == author_name_of(c.author)
    &&& text::opt_text(o.content_text) == (if text::trim_of(body).len() == 0 {
        None
    } else {
        Some(body)
    })
    &&& content_is(o.content_yjs, body)
    &&& text::opt_text(o.created_at) == text::opt_text(c.created)
    &&& text::opt_text(o.edited_at) == text::opt_text(c.updated)
    &&& !o.deleted
    &&& o.deleted_at is None
    &&& o.parent_id is None
}

pub open spec fn comments_are(out: Seq<ExportComment>, v: Seq<CommentRef>, space: Seq<char>) -> bool {
    out.len() == v.len() && forall|i: int|
        0 <= i < v.len() ==> comment_is(#[trigger] out[i], v[i], space)
}

/// Whether the comments of the items are those of `v`.
pub open spec fn commented(
    items: Seq<ExportItem>,
    v: Seq<CommentRef>,
    ids: Seq<Seq<char>>,
    space: Seq<char>,
) -> bool {
    forall|k: int|
        0 <= k < items.len() ==> comments_are(
            (#[trigger] items[k]).comments@,
            comments_on(v, ids, k),
            space,
        )
}

/// The attachments that the comments show, in order.
pub open spec fn comment_attachments(v: Seq<CommentRef>) -> Seq<JiraAttachment>
    decreases v.len(),
{
    if v.len() == 0 {
        seq![]
    } else {
        comment_attachments(v.drop_last()) + shown_in(
            comment_markdown(v.last().comment),
            v.last().issue.fields.attachment@,
        )
    }
}

/// The warnings for the images in comments, in order.
pub open spec fn comment_warnings(v: Seq<CommentRef>) -> Seq<Seq<char>>
    decreases v.len(),
{
    if v.len() == 0 {
        seq![]
    } else {
        comment_warnings(v.drop_last()) + image_warnings(
            comment_markdown(v.last().comment),
            v.last().issue.fields.attachment@,
            v.last().issue.key@,
        )
    }
}

fn convert_comment(
    c: &JiraComment,
    i: &JiraIssue,
    space: &str,
    by: &str,
    now: &str,
    atts: &mut Attachments,
    warnings: &mut Vec<String>,
) -> (r: ExportComment)
    ensures
        comment_is(r, comment_ref(*i, *c), space@),
        final(atts)@ == all_minted(
            old(atts)@,
            shown_in(comment_markdown(*c), i.fields.attachment@),
            by@,
            now@,
        ),
        text::texts(final(warnings)@) == text::texts(old(warnings)@) + image_warnings(
            comment_markdown(*c),
            i.fields.attachment@,
            i.key@,
        ),
{
    let author_id = match user_id(&c.author) {
        Some(id) => id,
        None => codec::nil_uuid(),
    };
    let author_name = match &c.author {
        Some(u) => if u.display_name.as_str().is_empty() {
            None
        } else {
            Some(u.display_name.clone())
        },
        None => None,
    };
    let md = match to_markdown(&c.body) {
        Some(m) => m,
        None => "".to_owned(),
    };
    let body = resolve_media(
        md.as_str(),
        i.key.as_str(),
        &i.fields.attachment,
        space,
        atts,
        by,
        now,
        warnings,
    );
    let content_yjs = markdown_to_content_yjs(body.as_str());
    ExportComment {
        id: det_id(NS_JIRA, "comment", c.id.as_str()),
        author_id,
        author_name,
        content_text: if common::is_blank(body.as_str()) {
            None
        } else {
            Some(body)
        },
        content_yjs,
        created_at: c.created.clone(),
        edited_at: c.updated.clone(),
        deleted: false,
        deleted_at: None,
        parent_id: None,
    }
}

fn push_comment(item: &mut ExportItem, c: ExportComment)
    ensures
        *final(item) == (ExportItem { comments: final(item).comments, ..*old(item) }),
        final(item).comments@ == old(item).comments@.push(c),
{
    item.comments.push(c);
}

/// Whether two lists of items differ in comments at most.
pub open spec fn same_but_comments(a: Seq<ExportItem>, b: Seq<ExportItem>) -> bool {
    a.len() == b.len() && forall|k: int|
        0 <= k < a.len() ==> (#[trigger] a[k]) == (ExportItem { comments: a[k].comments, ..b[k] })
}

fn attach_comments(
    items: &mut Vec<ExportItem>,
    all: &[JiraIssue],
    ids: &StrMap<usize>,
    space: &str,
    by: &str,
    now: &str,
    atts: &mut Attachments,
    warnings: &mut Vec<String>,
)
    requires
        is_index(ids@, issue_ids(all@)),
        old(items)@.len() == all@.len(),
        forall|k: int| 0 <= k < old(items)@.len() ==> (#[trigger] old(items)@[k]).comments@.len() == 0,
    ensures
        same_but_comments(final(items)@, old(items)@),
        commented(final(items)@, comments(all@), issue_ids(all@), space@),
        final(atts)@ == all_minted(old(atts)@, comment_attachments(comments(all@)), by@, now@),
        text::texts(final(warnings)@) == text::texts(old(warnings)@) + comment_warnings(
            comments(all@),
        ),
{
    let ghost was = items@;
    let ghost g = atts@;
    let ghost w = text::texts(warnings@);
    let ghost v = all@;
    let ghost idv = issue_ids(all@);
    let mut i: usize = 0;
    assert(v.take(0) =~= seq![]);
    assert(w + seq![] =~= w);
    while i < all.len()
        invariant
            i <= v.len(),
            v == all@,
            idv == issue_ids(v),
            is_index(ids@, idv),
            items@.len() == v.len(),
            same_but_comments(items@, was),
            commented(items@, comments(v.take(i as int)), idv, space@),
            atts@ == all_minted(g, comment_attachments(comments(v.take(i as int))), by@, now@),
            text::texts(warnings@) == w + comment_warnings(comments(v.take(i as int))),
        decreases v.len() - i,
    {
        let issue = &all[i];
        let ghost before = comments(v.take(i as int));
        let list = &issue.fields.comment.comments;
        let mut k: usize = 0;
        proof {
            assert(before + issue_comments(*issue).take(0) =~= before);
            assert(idv[i as int] == issue.id@);
            lemma_index_of(idv, issue.id@);
        }
        if let Some(at) = position_of(ids, Ghost(idv), issue.id.as_str()) {
            while k < list.len()
                invariant
                    k <= list@.len(),
                    list@ == issue.fields.comment.comments@,
                    at < items@.len(),
                    index_of(idv, issue.id@) == Some(at as int),
                    items@.len() == v.len(),
                    same_but_comments(items@, was),
                    commented(items@, before + issue_comments(*issue).take(k as int), idv, space@),
                    atts@ == all_minted(
                        g,
                        comment_attachments(before + issue_comments(*issue).take(k as int)),
                        by@,
                        now@,
                    ),
                    text::texts(warnings@) == w + comment_warnings(
                        before + issue_comments(*issue).take(k as int),
                    ),
                decreases list@.len() - k,
            {
                let c = &list[k];
                let ghost so_far = before + issue_comments(*issue).take(k as int);
                let ghost next = before + issue_comments(*issue).take(k + 1);
                let ghost middle = items@;
                let ghost told = text::texts(warnings@);
                proof {
                    assert(next.drop_last() =~= so_far);
                    assert(next.last() == comment_ref(*issue, *c));
                    lemma_minted_append(
                        g,
                        comment_attachments(so_far),
                        shown_in(comment_markdown(*c), issue.fields.attachment@),
                        by@,
                        now@,
                    );
                }
                let comment = convert_comment(c, issue, space, by, now, atts, warnings);
                push_comment(&mut items[at], comment);
                proof {
                    assert(items@ =~= middle.update(at as int, items@[at as int]));
                    assert(text::texts(warnings@) =~= w + comment_warnings(next));
                    assert forall|j: int| 0 <= j < items@.len() implies comments_are(
                        (#[trigger] items@[j]).comments@,
                        comments_on(next, idv, j),
                        space@,
                    ) by {
                        assert(comments_are(
                            middle[j].comments@,
                            comments_on(so_far, idv, j),
                            space@,
                        ));
                    }
                }
                k = k + 1;
            }
        }
        proof {
            assert(issue_comments(*issue).take(list@.len() as int) =~= issue_comments(*issue));
            assert(v.take(i + 1).drop_last() =~= v.take(i as int));
        }
        i = i + 1;
    }
    assert(v.take(v.len() as int) =~= v);
}

// ---------------------------------------------------------------------------
// The conversion
// ---------------------------------------------------------------------------

/// The id of the converted space.
pub open spec fn space_of(p: JiraProject) -> Seq<char> {
    det(NS_JIRA, "space"@, p.id@)
}

/// Who is recorded where an uploader is not known: the first of the users, or nobody
/// where there are none.
pub open spec fn stand_in(v: Seq<ExportUser>) -> Seq<char> {
    if v.len() > 0 {
        v[0].id@
    } else {
        codec::nil_uuid_text()
    }
}

/// The attachments and their URLs.
pub open spec fn gathered(v: Seq<JiraIssue>, by: Seq<char>, now: Seq<char>) -> Gathered {
    all_minted(
        none_gathered(),
        item_attachments(v) + comment_attachments(comments(v)),
        by,
        now,
    )
}

/// Whether the items are those of the issues, with their links and comments.
pub open spec fn items_are(out: Seq<ExportItem>, v: Seq<JiraIssue>, space: Seq<char>) -> bool {
    &&& out.len() == v.len()
    &&& forall|k: int| 0 <= k < out.len() ==> item_fields(#[trigger] out[k], v[k], v, space)
    &&& linked(out, links(v), v)
    &&& commented(out, comments(v), issue_ids(v), space)
}

/// The view by sprint, for a project that has sprints.
pub open spec fn sprint_view(v: Seq<JiraSprint>) -> Option<(Seq<char>, Seq<char>)> {
    if v.len() == 0 {
        None
    } else {
        Some((det(NS_JIRA, "view"@, "by-sprint"@), "By Sprint"@))
    }
}

/// Whether `e` is the export of a project at the time `now`.
pub open spec fn export_is(
    e: SpaceExport,
    p: JiraProject,
    v: Seq<JiraIssue>,
    now: Seq<char>,
) -> bool {
    &&& e.format@ == "wodo-space-export-v2"@
    &&& e.exported_at@ == now
    &&& common::space_is(e.space, space_of(p), or_if_empty(p.name@, p.key@), p.key@, now)
    &&& common::labels_view(e.labels) == common::labels_of(
        labels::label_list(v),
        label_id("status"@),
    )
    &&& common::milestones_view(e.milestones) == milestones_of(versions(v))
    &&& e.cycle_config is None
    &&& cycle_views(e.cycles@) == cycles_of(sprints(v))
    &&& e.archive_config is None
    &&& common::views_are(
        e.views,
        det(NS_JIRA, "view"@, "by-status"@),
        label_id("status"@),
        sprint_view(sprints(v)),
    )
    &&& items_are(e.items@, v, space_of(p))
    &&& e.documents@.len() == 0
    &&& users::users_are(e.users@, users::all_persons(v))
    &&& common::attachment_views(e.attachments@) == gathered(v, stand_in(e.users@), now).list
    &&& e.teams@.len() == 0
    &&& e.overview_text is None
    &&& e.overview_yjs is None
}

/// The warnings of a conversion.
pub open spec fn warnings_of(v: Seq<JiraIssue>) -> Seq<Seq<char>> {
    item_warnings(v) + link_warning(dropped_links(links(v), v)) + comment_warnings(comments(v))
}

/// Whether `c` is the conversion of a project at the time `now`.
pub open spec fn is_conversion(
    c: JiraConversion,
    p: JiraProject,
    v: Seq<JiraIssue>,
    now: Seq<char>,
) -> bool {
    &&& export_is(c.export, p, v, now)
    &&& text::texts(c.warnings@) == warnings_of(v)
    &&& text_map(c.attachment_urls@) == gathered(v, stand_in(c.export.users@), now).urls
}

fn collect_ids(v: &[JiraIssue]) -> (r: Vec<String>)
    ensures
        text::texts(r@) == issue_ids(v@),
{
    let mut out: Vec<String> = Vec::new();
    let mut i: usize = 0;
    while i < v.len()
        invariant
            i <= v@.len(),
            out@.len() == i,
            forall|k: int| 0 <= k < i ==> (#[trigger] out@[k])@ == v@[k].id@,
        decreases v@.len() - i,
    {
        out.push(v[i].id.clone());
        i = i + 1;
    }
    assert(text::texts(out@) =~= issue_ids(v@));
    out
}

fn collect_keys(v: &[JiraIssue]) -> (r: Vec<String>)
    ensures
        text::texts(r@) == issue_keys(v@),
{
    let mut out: Vec<String> = Vec::new();
    let mut i: usize = 0;
    while i < v.len()
        invariant
            i <= v@.len(),
            out@.len() == i,
            forall|k: int| 0 <= k < i ==> (#[trigger] out@[k])@ == v@[k].key@,
        decreases v@.len() - i,
    {
        out.push(v[i].key.clone());
        i = i + 1;
    }
    assert(text::texts(out@) =~= issue_keys(v@));
    out
}

fn warn_dropped(warnings: &mut Vec<String>, n: usize, Ghost(count): Ghost<int>)
    requires
        n == filled_usize(count),
        count >= 0,
    ensures
        text::texts(final(warnings)@) == text::texts(old(warnings)@) + link_warning(count),
{
    let ghost before = text::texts(warnings@);
    if n > 0 {
        let w = text::nat_text(n as u64).concat(
            " issue link(s) referenced an issue outside the import and were dropped",
        );
        let ghost wv = w@;
        warnings.push(w);
        assert(text::texts(warnings@) =~= before.push(wv));
        assert(before.push(wv) =~= before + seq![wv]);
    } else {
        assert(before + seq![] =~= before);
    }
}

fn build_views(status_label_id: &str, has_sprints: bool) -> (r:
    crate::template::types::TemplateViews)
    ensures
        common::views_are(
            r,
            det(NS_JIRA, "view"@, "by-status"@),
            status_label_id@,
            (if has_sprints {
                Some((det(NS_JIRA, "view"@, "by-sprint"@), "By Sprint"@))
            } else {
                None
            }),
        ),
{
    let by_status = det_id(NS_JIRA, "view", "by-status");
    if has_sprints {
        let by_sprint = det_id(NS_JIRA, "view", "by-sprint");
        common::build_boards(
            by_status.as_str(),
            status_label_id,
            Some((by_sprint.as_str(), "By Sprint")),
        )
    } else {
        common::build_boards(by_status.as_str(), status_label_id, None)
    }
}

proof fn lemma_any_cycle(v: Seq<JiraSprint>)
    ensures
        (cycles_of(v).len() > 0) == (v.len() > 0),
    decreases v.len(),
{
    if v.len() > 0 {
        lemma_any_cycle(v.drop_last());
    }
}

/// Converts a project and its issues at a given time.
pub fn convert_at(project: &JiraProject, issues: &[JiraIssue], now: &str) -> (r: JiraConversion)
    ensures
        is_conversion(r, *project, issues@, now@),
{
    let space_id = det_id(NS_JIRA, "space", project.id.as_str());
    let space_name = text_or_if_empty(project.name.as_str(), project.key.as_str());
    let users = collect_users(issues);
    let by = if users.len() > 0 {
        users[0].id.clone()
    } else {
        codec::nil_uuid()
    };
    let space = common::space_metadata(
        space_id.as_str(),
        space_name,
        project.key.as_str(),
        now,
    );
    let build = build_labels(issues);
    let milestones = convert_versions(issues);
    let cycles = convert_sprints(issues);
    let id_list = collect_ids(issues);
    let ids = common::build_index(&id_list);
    let key_list = collect_keys(issues);
    let keys = common::build_index(&key_list);
    let mut warnings: Vec<String> = Vec::new();
    let mut atts = Attachments::new();
    let ghost v = issues@;
    let ghost sp = space_id@;
    assert(text::texts(warnings@) =~= seq![]);
    let mut items = convert_issues(
        issues,
        &build,
        &keys,
        space_id.as_str(),
        by.as_str(),
        now,
        &mut atts,
        &mut warnings,
    );
    let ghost base = items@;
    let dropped: usize = apply_links(&mut items, issues, &ids, &keys);
    let ghost tied = items@;
    proof {
        lemma_dropped_links(links(v), v);
    }
    warn_dropped(&mut warnings, dropped, Ghost(dropped_links(links(v), v)));
    attach_comments(
        &mut items,
        issues,
        &ids,
        space_id.as_str(),
        by.as_str(),
        now,
        &mut atts,
        &mut warnings,
    );
    proof {
        lemma_minted_append(
            none_gathered(),
            item_attachments(v),
            comment_attachments(comments(v)),
            by@,
            now@,
        );
        assert(atts@ == gathered(v, by@, now@));
        assert forall|k: int| 0 <= k < items@.len() implies item_fields(
            #[trigger] items@[k],
            v[k],
            v,
            sp,
        ) by {
            assert(item_fields(base[k], v[k], v, sp));
            assert(same_fields(tied[k], base[k]));
        }
        assert forall|k: int| 0 <= k < items@.len() implies {
            &&& text::texts((#[trigger] items@[k]).blocked_by@) == blockers(links(v), v, k)
            &&& text::opt_text(items@[k].duplicate_of) == duplicated(links(v), v, k)
        } by {
            assert(text::texts(tied[k].blocked_by@) == blockers(links(v), v, k));
        }
        assert(text::texts(warnings@) =~= warnings_of(v));
        lemma_any_cycle(sprints(v));
        assert(cycle_views(cycles@).len() == cycles@.len());
    }
    let status = det_id(NS_JIRA, "label", "status");
    let views = build_views(status.as_str(), cycles.len() > 0);
    let export = SpaceExport {
        format: "wodo-space-export-v2".to_owned(),
        exported_at: now.to_owned(),
        space,
        labels: build.labels,
        milestones,
        cycle_config: None,
        cycles,
        archive_config: None,
        views,
        items,
        documents: Vec::new(),
        attachments: atts.list,
        users,
        teams: Vec::new(),
        overview_text: None,
        overview_yjs: None,
    };
    JiraConversion { export, warnings, attachment_urls: atts.urls }
}

/// Converts a project and its issues: the export, the warnings and the URLs of
/// attachments. The time is an instant.
pub fn jira_to_space_export(project: &JiraProject, issues: &[JiraIssue]) -> (r: JiraConversion)
    ensures
        exists|now: Seq<char>, now_ms: int| #[trigger]
            calendar::one_instant(now, now_ms) && is_conversion(r, *project, issues@, now),
{
    let (now, now_ms) = calendar::now();
    let r = convert_at(project, issues, now.as_str());
    assert(calendar::one_instant(now@, now_ms as int) && is_conversion(
        r,
        *project,
        issues@,
        now@,
    ));
    r
}

} // verus!
