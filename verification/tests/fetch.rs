//! What both fetchers share.

use wodo_interop::export::types::ExportAttachment;
use wodo_interop::import::fetch::{
    choose_base_url, default_out, download_warning, give_up_message, judge_response, plan_downloads,
    refusal_message, retry_after_secs, Download, Reply,
};
use wodo_interop::import::truncate;
use wodo_interop::str_map::StrMap;

#[test]
fn truncate_backs_up_to_char_boundary() {
    assert_eq!(truncate("hello", 10), "hello"); // within limit → unchanged
    assert_eq!(truncate("é", 1), "…"); // byte 1 splits é → back up to 0
    assert_eq!(truncate("a😀b", 2), "a…"); // byte 2 splits the emoji → "a"
}

#[test]
fn truncate_at_the_limit() {
    assert_eq!(truncate("hello", 5), "hello");
    assert_eq!(truncate("hello", 4), "hell…");
    assert_eq!(truncate("", 0), "");
}

#[test]
fn responses_are_judged_by_status() {
    assert!(matches!(judge_response(0, 200, None), Reply::Accepted));
    assert!(matches!(judge_response(0, 299, None), Reply::Accepted));
    assert!(matches!(judge_response(0, 404, Some("3")), Reply::Refused));
    assert!(matches!(judge_response(0, 429, Some("3")), Reply::Wait(3)));
    assert!(matches!(judge_response(0, 429, None), Reply::Wait(15)));
    assert!(matches!(judge_response(4, 429, Some("3")), Reply::Wait(3)));
    assert!(matches!(judge_response(5, 429, Some("3")), Reply::GiveUp(3)));
    assert!(matches!(judge_response(u32::MAX, 429, None), Reply::GiveUp(15)));
    assert!(matches!(judge_response(5, 200, None), Reply::Accepted));
    assert_eq!(give_up_message(), "too many 429 retries");
    assert_eq!(retry_after_secs(Some(" 7 ")), 7);
    assert_eq!(retry_after_secs(Some("soon")), 15);
    assert_eq!(retry_after_secs(Some("-1")), 15);
    assert_eq!(retry_after_secs(None), 15);
}

#[test]
fn refusals_quote_the_start_of_the_body() {
    assert_eq!(refusal_message(500, "broken", 3), "HTTP 500: bro…");
    assert_eq!(refusal_message(404, "none", 300), "HTTP 404: none");
}

fn attachment(id: &str, filename: &str) -> ExportAttachment {
    ExportAttachment {
        id: id.to_string(),
        filename: filename.to_string(),
        content_type: "text/plain".to_string(),
        size_bytes: 0,
        uploaded_by: "u".to_string(),
        uploaded_at: "t".to_string(),
        document_id: None,
        orphaned: false,
    }
}

#[test]
fn downloads_are_those_that_the_export_lists() {
    let mut urls = StrMap::new();
    urls.insert("a".to_string(), "http://x/a".to_string());
    urls.insert("lost".to_string(), "http://x/lost".to_string());
    let mut warnings = Vec::new();
    let plan = plan_downloads(&vec![attachment("a", "a.png")], &urls, &mut warnings);
    assert_eq!(plan.len(), 1);
    assert_eq!(plan[0].id, "a");
    assert_eq!(plan[0].url, "http://x/a");
    assert_eq!(plan[0].filename, "a.png");
    assert_eq!(warnings.len(), 1);
    assert!(warnings[0].contains("lost"));
    let d = Download {
        id: "a".to_string(),
        url: "http://x/a".to_string(),
        filename: "a.png".to_string(),
    };
    assert_eq!(
        download_warning(&d, "HTTP 404"),
        "attachment a (http://x/a): download failed: HTTP 404"
    );
}

#[test]
fn names_and_urls_of_a_run() {
    assert_eq!(default_out("WMT"), "WMT-export.zip");
    let some = |s: &str| Some(s.to_string());
    assert_eq!(choose_base_url(some("a"), some("b")), some("a"));
    assert_eq!(choose_base_url(None, some("b")), some("b"));
    assert_eq!(choose_base_url(None, some("")), None);
    assert_eq!(choose_base_url(some(""), some("b")), None);
    assert_eq!(choose_base_url(None, None), None);
}
