//! What a fetch of a Jira project asks for, and how it goes on.
//!
//! The search gives every issue with all that belongs to it, so there is one stream
//! of pages, each of which names the token of the next.

use vstd::prelude::*;
use vstd::slice::slice_subrange;
use vstd::string::StringExecFns;

use crate::import::convert::jira::{JiraIssue, JiraProject};
use crate::import::linear_fetch::{line, put_line};
use crate::import::query::{escape_for, escaped};
use crate::json::{self, Json};
use crate::text;

verus! {

/// The size of pages, where none is given.
pub const DEFAULT_PAGE_SIZE: usize = 50;

/// What a fetch can be tuned by.
pub struct JiraImportOptions {
    /// Key of the project, such as `MTR`.
    pub project_key: String,
    /// Base URL, such as `https://your-domain.atlassian.net`.
    pub base_url: String,
    /// Issues on a page.
    pub page_size: usize,
}

/// Result of a fetch.
pub struct JiraImportOutput {
    /// The archive for the import wizard.
    pub zip: Vec<u8>,
    /// Warnings of the conversion and of downloads.
    pub warnings: Vec<String>,
    /// Counts of issues, items and attachments.
    pub summary: String,
}

// ---------------------------------------------------------------------------
// Requests
// ---------------------------------------------------------------------------

/// Escapes a text for a JQL literal.
pub fn jql_escape(s: &str) -> (r: String)
    ensures
        r@ == escaped(s@, '\''),
{
    escape_for(s, '\'')
}

/// The search for the issues of a project, the oldest first.
pub open spec fn jql_of(project: Seq<char>) -> Seq<char> {
    "project = '"@ + escaped(project, '\'') + "' ORDER BY created ASC"@
}

/// Whether `j` is the string `s`.
pub open spec fn is_text(j: Json, s: Seq<char>) -> bool {
    json::as_text(Some(j)) == Some(s)
}

/// Whether `j` is an array that holds the string `s`.
pub open spec fn is_text_list(j: Json, s: Seq<char>) -> bool {
    match json::as_items(Some(j)) {
        Some(v) => v.len() == 1 && is_text(v[0], s),
        None => false,
    }
}

/// Whether `b` is the body of a search request.
pub open spec fn is_search_body(b: Json, project: Seq<char>, size: usize, token: Option<Seq<char>>) -> bool {
    match b {
        Json::Object(v) => {
            &&& v@.len() == (if token is Some {
                4int
            } else {
                3int
            })
            &&& v@[0].0@ == "jql"@ && is_text(v@[0].1, jql_of(project))
            &&& v@[1].0@ == "fields"@ && is_text_list(v@[1].1, "*all"@)
            &&& v@[2].0@ == "maxResults"@ && v@[2].1 == Json::Unsigned(size as u64)
            &&& token is Some ==> v@[3].0@ == "nextPageToken"@ && is_text(v@[3].1, token->0)
        },
        _ => false,
    }
}

/// The body of a search request: all fields of a page of issues. The token of the
/// page is left out for the first one.
pub fn build_search_body(project_key: &str, page_size: usize, page_token: Option<&str>) -> (r: Json)
    ensures
        is_search_body(
            r,
            project_key@,
            page_size,
            (match page_token {
                Some(t) => Some(t@),
                None => None,
            }),
        ),
{
    let jql = "project = '".to_owned().concat(jql_escape(project_key).as_str()).concat(
        "' ORDER BY created ASC",
    );
    let mut fields: Vec<Json> = Vec::new();
    fields.push(Json::Str("*all".to_owned()));
    let mut v: Vec<(String, Json)> = Vec::new();
    v.push(("jql".to_owned(), Json::Str(jql)));
    v.push(("fields".to_owned(), Json::Array(fields)));
    v.push(("maxResults".to_owned(), Json::Unsigned(page_size as u64)));
    if let Some(t) = page_token {
        v.push(("nextPageToken".to_owned(), Json::Str(t.to_owned())));
    }
    Json::Object(v)
}

/// `s` without slashes at its end.
pub open spec fn without_slashes(s: Seq<char>) -> Seq<char>
    decreases s.len(),
{
    if s.len() > 0 && s.last() == '/' {
        without_slashes(s.drop_last())
    } else {
        s
    }
}

/// The base URL without slashes at its end, so that a path can follow.
pub fn base(opts: &JiraImportOptions) -> (r: String)
    ensures
        r@ == without_slashes(opts.base_url@),
{
    let chars = text::to_chars(opts.base_url.as_str());
    let ghost all = chars@;
    let mut n: usize = chars.len();
    assert(all.take(n as int) =~= all);
    while n > 0 && chars[n - 1] == '/'
        invariant
            n <= all.len(),
            all == chars@,
            without_slashes(all) == without_slashes(all.take(n as int)),
        decreases n,
    {
        assert(all.take(n as int).drop_last() =~= all.take(n - 1));
        n = n - 1;
    }
    assert(all.take(n as int) =~= all.subrange(0, n as int));
    text::to_text(slice_subrange(chars.as_slice(), 0, n))
}

/// The URL of the search.
pub fn search_url(base_url: &str) -> (r: String)
    ensures
        r@ == base_url@ + "/rest/api/3/search/jql"@,
{
    base_url.to_owned().concat("/rest/api/3/search/jql")
}

/// The URL of a project.
pub fn project_url(base_url: &str, project_key: &str) -> (r: String)
    ensures
        r@ == base_url@ + "/rest/api/3/project/"@ + project_key@,
{
    base_url.to_owned().concat("/rest/api/3/project/").concat(project_key)
}

/// The size of pages, which is never zero.
pub fn effective_page_size(opts: &JiraImportOptions) -> (r: usize)
    ensures
        r == (if opts.page_size == 0 {
            1
        } else {
            opts.page_size
        }),
{
    if opts.page_size == 0 {
        1
    } else {
        opts.page_size
    }
}

// ---------------------------------------------------------------------------
// Pages
// ---------------------------------------------------------------------------

/// A page of the search.
#[derive(Debug, Default)]
pub struct SearchPage {
    pub issues: Vec<JiraIssue>,
    pub is_last: bool,
    pub next_page_token: Option<String>,
}

/// The token, where there is one that is not empty.
pub open spec fn usable(token: Option<String>) -> Option<Seq<char>> {
    match token {
        Some(t) => if t@.len() == 0 {
            None
        } else {
            Some(t@)
        },
        None => None,
    }
}

/// The token, if it is not empty.
pub fn usable_token(token: &Option<String>) -> (r: Option<String>)
    ensures
        text::opt_text(r) == usable(*token),
{
    match token {
        Some(t) => if t.as_str().is_empty() {
            None
        } else {
            Some(t.clone())
        },
        None => None,
    }
}

impl SearchPage {
    /// Whether the search ends with this page: it says so, or it names no next one.
    pub open spec fn ends(self) -> bool {
        self.is_last || usable(self.next_page_token) is None
    }

    /// Whether the search ends with this page.
    pub fn done(&self) -> (r: bool)
        ensures
            r == self.ends(),
    {
        if self.is_last {
            return true;
        }
        match &self.next_page_token {
            Some(t) => t.as_str().is_empty(),
            None => true,
        }
    }
}

/// How far a search has come.
pub struct SearchState {
    pub issues: Vec<JiraIssue>,
    /// The token of the next page.
    pub token: Option<String>,
}

/// What to do after a page.
pub struct SearchStep {
    /// The progress to keep.
    pub checkpoint: Option<String>,
    pub done: bool,
}

/// The start of a search, which may go on at a token that was kept.
pub fn start_search(resume: &Option<String>) -> (r: SearchState)
    ensures
        r.issues@.len() == 0,
        text::opt_text(r.token) == usable(*resume),
{
    SearchState { issues: Vec::new(), token: usable_token(resume) }
}

/// Takes a page: its issues are added, its token is that of the next request, and the
/// token is kept as progress if it is one.
pub fn take_page(state: &mut SearchState, page: SearchPage) -> (r: SearchStep)
    ensures
        final(state).issues@ == old(state).issues@ + page.issues@,
        text::opt_text(final(state).token) == text::opt_text(page.next_page_token),
        text::opt_text(r.checkpoint) == usable(page.next_page_token),
        r.done == page.ends(),
{
    let done = page.done();
    let checkpoint = usable_token(&page.next_page_token);
    let mut more = page.issues;
    let ghost was = state.issues@;
    state.issues.append(&mut more);
    state.token = page.next_page_token;
    SearchStep { checkpoint, done }
}

/// The project that the first issue belongs to, where its id is known: what to go by
/// where the project itself can not be looked up.
pub fn fallback_project(issues: &Vec<JiraIssue>) -> (r: Option<JiraProject>)
    ensures
        r is Some <==> issues@.len() > 0 && issues@[0].fields.project.id@.len() > 0,
        r matches Some(p) ==> p.id@ == issues@[0].fields.project.id@ && p.key@
            == issues@[0].fields.project.key@ && p.name@ == issues@[0].fields.project.name@,
{
    if issues.len() == 0 {
        return None;
    }
    let p = &issues[0].fields.project;
    if p.id.as_str().is_empty() {
        None
    } else {
        Some(JiraProject { id: p.id.clone(), key: p.key.clone(), name: p.name.clone() })
    }
}

// ---------------------------------------------------------------------------
// The summary
// ---------------------------------------------------------------------------

/// How many entities were fetched.
pub struct SearchCounts {
    pub issues: usize,
    pub items: usize,
    pub attachments: usize,
    pub downloaded: usize,
    pub warnings: usize,
}

/// The summary of a fetch.
pub open spec fn summary_of(p: JiraProject, c: SearchCounts) -> Seq<char> {
    "Jira import summary:\n  project:         "@ + p.name@ + " ("@ + p.key@ + ")"@ + line(
        "\n  issues:          "@,
        c.issues as int,
    ) + line("\n  items in export: "@, c.items as int) + line(
        "\n  attachments:     "@,
        c.attachments as int,
    ) + line(" in manifest → "@, c.downloaded as int) + " downloaded"@ + line(
        "\n  warnings:        "@,
        c.warnings as int,
    )
}

/// The summary of a fetch.
pub fn summary(project: &JiraProject, counts: &SearchCounts) -> (r: String)
    ensures
        r@ == summary_of(*project, *counts),
{
    let mut out = "Jira import summary:\n  project:         ".to_owned();
    out.append(project.name.as_str());
    out.append(" (");
    out.append(project.key.as_str());
    out.append(")");
    put_line(&mut out, "\n  issues:          ", counts.issues);
    put_line(&mut out, "\n  items in export: ", counts.items);
    put_line(&mut out, "\n  attachments:     ", counts.attachments);
    put_line(&mut out, " in manifest → ", counts.downloaded);
    out.append(" downloaded");
    put_line(&mut out, "\n  warnings:        ", counts.warnings);
    out
}

} // verus!
