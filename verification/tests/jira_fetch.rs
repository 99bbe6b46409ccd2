//! Fetching a Jira project: requests and pages.

use wodo_interop::import::convert::jira::{JiraIssue, JiraProject};
use wodo_interop::import::jira_fetch::{
    base, build_search_body, effective_page_size, fallback_project, jql_escape, project_url,
    search_url, start_search, summary, take_page, usable_token, JiraImportOptions, SearchCounts,
    SearchPage,
};
use wodo_interop::json::Json;

fn text_under<'a>(body: &'a Json, key: &str) -> Option<&'a str> {
    body.get(key).and_then(|v| v.as_str())
}

fn number_under(body: &Json, key: &str) -> Option<u64> {
    match body.get(key) {
        Some(Json::Unsigned(n)) => Some(*n),
        _ => None,
    }
}

#[test]
fn search_body_first_page_has_no_token() {
    let body = build_search_body("MTR", 50, None);
    assert_eq!(text_under(&body, "jql"), Some("project = 'MTR' ORDER BY created ASC"));
    assert_eq!(
        body.get("fields"),
        Some(&Json::Array(vec![Json::Str("*all".to_string())]))
    );
    assert_eq!(number_under(&body, "maxResults"), Some(50));
    assert!(body.get("nextPageToken").is_none(), "first page omits nextPageToken");
}

#[test]
fn search_body_later_page_carries_token() {
    let body = build_search_body("SCRUM", 25, Some("tok-abc"));
    assert_eq!(text_under(&body, "nextPageToken"), Some("tok-abc"));
    assert_eq!(number_under(&body, "maxResults"), Some(25));
    assert_eq!(text_under(&body, "jql"), Some("project = 'SCRUM' ORDER BY created ASC"));
}

#[test]
fn search_body_escapes_project_key() {
    // Defensive: a key with a quote can't break out of the JQL literal.
    let body = build_search_body("A'B\\C", 10, None);
    assert_eq!(
        text_under(&body, "jql"),
        Some("project = 'A\\'B\\\\C' ORDER BY created ASC")
    );
}

fn issue(id: &str) -> JiraIssue {
    JiraIssue { id: id.to_string(), ..Default::default() }
}

fn page(ids: &[&str], is_last: bool, token: Option<&str>) -> SearchPage {
    SearchPage {
        issues: ids.iter().map(|id| issue(id)).collect(),
        is_last,
        next_page_token: token.map(|t| t.to_string()),
    }
}

#[test]
fn page_done_on_is_last() {
    let page = page(&["1"], true, Some("still-here"));
    assert_eq!(page.issues.len(), 1);
    assert!(page.done(), "isLast=true terminates even with a token present");
}

#[test]
fn page_done_on_absent_token() {
    // No isLast, no token ⇒ done (the real `/search/jql` final page).
    let page = page(&["1"], false, None);
    assert!(!page.is_last);
    assert!(page.next_page_token.is_none());
    assert!(page.done());
}

#[test]
fn page_continues_with_token_and_not_last() {
    let page = page(&["1", "2"], false, Some("next-tok"));
    assert!(!page.done(), "a token + isLast=false means keep going");
    assert_eq!(page.next_page_token.as_deref(), Some("next-tok"));
}

/// Two pages and a last one: every issue is kept, each request carries the token of
/// the page before it, and each page is a checkpoint.
#[test]
fn page_loop_accumulates_until_done() {
    let mut pages = vec![
        page(&["4", "5"], true, None),
        page(&["3"], false, Some("t2")),
        page(&["1", "2"], false, Some("t1")),
    ];
    let mut state = start_search(&None);
    let mut tokens_seen_by_request: Vec<Option<String>> = Vec::new();
    let mut checkpoints: Vec<String> = Vec::new();
    let mut idx = 0usize;
    loop {
        tokens_seen_by_request.push(state.token.clone());
        let step = take_page(&mut state, pages.pop().unwrap());
        idx += 1;
        if let Some(t) = step.checkpoint {
            checkpoints.push(t);
        }
        if step.done {
            break;
        }
    }
    assert_eq!(
        tokens_seen_by_request,
        vec![None, Some("t1".to_string()), Some("t2".to_string())],
        "each request carried the prior page's token"
    );
    assert_eq!(state.issues.len(), 5, "all issues across pages accumulated");
    assert_eq!(checkpoints, vec!["t1", "t2"], "checkpointed each non-final page token");
    assert!(state.token.is_none(), "final page cleared the token");
    assert_eq!(idx, 3, "stopped exactly at the isLast page");
}

#[test]
fn empty_tokens_end_a_search() {
    assert_eq!(usable_token(&Some(String::new())), None);
    assert_eq!(usable_token(&Some("t".to_string())), Some("t".to_string()));
    assert!(page(&[], false, Some("")).done());
    assert_eq!(start_search(&Some(String::new())).token, None);
    assert_eq!(start_search(&Some("kept".to_string())).token, Some("kept".to_string()));
}

#[test]
fn urls_hang_on_the_trimmed_base() {
    let opts = JiraImportOptions {
        project_key: "MTR".to_string(),
        base_url: "https://x.atlassian.net//".to_string(),
        page_size: 0,
    };
    let b = base(&opts);
    assert_eq!(b, "https://x.atlassian.net");
    assert_eq!(search_url(&b), "https://x.atlassian.net/rest/api/3/search/jql");
    assert_eq!(project_url(&b, "MTR"), "https://x.atlassian.net/rest/api/3/project/MTR");
    assert_eq!(effective_page_size(&opts), 1);
    assert_eq!(jql_escape("it's"), "it\\'s");
}

#[test]
fn project_of_the_first_issue_stands_in() {
    let mut first = issue("1");
    assert!(fallback_project(&vec![issue("1")]).is_none());
    assert!(fallback_project(&vec![]).is_none());
    first.fields.project = JiraProject {
        id: "10001".to_string(),
        key: "MTR".to_string(),
        name: "Name".to_string(),
    };
    let p = fallback_project(&vec![first]).unwrap();
    assert_eq!((p.id.as_str(), p.key.as_str(), p.name.as_str()), ("10001", "MTR", "Name"));
    let text = summary(
        &p,
        &SearchCounts { issues: 3, items: 3, attachments: 2, downloaded: 1, warnings: 4 },
    );
    assert_eq!(
        text,
        "Jira import summary:\n  project:         Name (MTR)\n  issues:          3\n  items in export: 3\n  attachments:     2 in manifest → 1 downloaded\n  warnings:        4"
    );
}
