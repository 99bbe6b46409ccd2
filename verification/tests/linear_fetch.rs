//! Fetching a Linear team: requests, pages and pauses.

use std::time::Duration;
use wodo_interop::export::types::ExportAttachment;
use wodo_interop::import::convert::linear::{
    LinearIssue, LinearLabelNodes, LinearLabelParent, LinearLabelRef,
};
use wodo_interop::import::linear_fetch::{
    add_label, after_page, backfill_sizes, backoff, count_attached, endpoint, escape,
    first_page_size, header_value, labels_page_size, labels_query, missing_labels,
    parse_rate_headers, streams, team_filter, team_query, touching, tuned_page_size, Ends, Header,
    LinearImportOptions, PageCost, PageInfo, PageOutcome, RateHeaders, StreamState,
    DEFAULT_BASE_URL,
};

/// What the cost of a page says about the next one.
fn cost_of(used: usize, x_complexity: f64, target: f64) -> PageCost {
    let used = used.max(1);
    if !x_complexity.is_finite() || x_complexity <= 0.0 {
        return PageCost::Unknown;
    }
    let cost_per_item = x_complexity / used as f64;
    if cost_per_item <= 0.0 {
        return PageCost::Free;
    }
    PageCost::Fits((target / cost_per_item).floor() as usize)
}

fn next_page_size(used: usize, x_complexity: f64, target: f64, max: usize) -> usize {
    tuned_page_size(used, &cost_of(used, x_complexity, target), max)
}

#[test]
fn next_page_size_ramps_up_under_budget() {
    // Cheap page (10 items cost 1000 ⇒ 100/item; target 8000 ⇒ ideal 80),
    // but the gentle ramp caps growth at 2× the page we just ran.
    let n = next_page_size(10, 1000.0, 8000.0, 250);
    assert_eq!(n, 20, "gentle ramp caps at 2× the previous page");

    // Run it again from 20: now 2×=40, still under the ideal 80.
    assert_eq!(next_page_size(20, 2000.0, 8000.0, 250), 40);
}

#[test]
fn next_page_size_clamps_at_max() {
    // Very cheap page would suggest a huge size; clamp to max (after ramp).
    // From a large page the 2× ramp would exceed max ⇒ clamps to max.
    assert_eq!(next_page_size(200, 100.0, 8000.0, 250), 250);
}

#[test]
fn next_page_size_shrinks_when_too_costly() {
    // 50 items cost 16000 ⇒ 320/item; target 8000 ⇒ ideal 25 < 50 ⇒ shrink.
    let n = next_page_size(50, 16000.0, 8000.0, 250);
    assert_eq!(n, 25);
}

#[test]
fn next_page_size_never_zero() {
    // Even a catastrophically expensive page floors at the minimum.
    assert!(next_page_size(10, 1_000_000.0, 8000.0, 250) >= 5);
    // Missing/garbage cost signal holds steady (clamped), never 0.
    assert!(next_page_size(10, 0.0, 8000.0, 250) >= 5);
    assert!(next_page_size(10, f64::NAN, 8000.0, 250) >= 5);
    assert!(next_page_size(0, 0.0, 8000.0, 250) >= 5);
}

#[test]
fn page_size_stays_without_a_cost() {
    assert_eq!(tuned_page_size(30, &PageCost::Unknown, 250), 30);
    assert_eq!(tuned_page_size(0, &PageCost::Unknown, 250), 5);
    assert_eq!(tuned_page_size(30, &PageCost::Free, 250), 60);
    assert_eq!(tuned_page_size(30, &PageCost::Fits(1), 3), 3);
    assert_eq!(tuned_page_size(usize::MAX, &PageCost::Fits(usize::MAX), usize::MAX), usize::MAX);
}

#[test]
fn first_page_is_within_bounds() {
    assert_eq!(first_page_size(10, 250), 10);
    assert_eq!(first_page_size(1, 250), 5);
    assert_eq!(first_page_size(900, 250), 250);
}

#[test]
fn backoff_sleeps_when_complexity_low() {
    // Below the complexity floor ⇒ sleep until reset (5s out).
    let now = 1_000_000;
    let d = backoff(Some(1_000), Some(1_000), Some(now + 5_000), now);
    assert_eq!(d, Some(Duration::from_millis(5_000)));
}

#[test]
fn backoff_sleeps_when_requests_low() {
    let now = 1_000_000;
    // Healthy complexity, but requests below floor ⇒ still sleep.
    let d = backoff(Some(200_000), Some(10), None, now);
    assert_eq!(d, Some(Duration::from_secs(30)));
}

#[test]
fn backoff_none_when_healthy() {
    assert_eq!(backoff(Some(200_000), Some(1_400), Some(0), 0), None);
    // Unknown budgets ⇒ no basis to throttle.
    assert_eq!(backoff(None, None, None, 0), None);
}

#[test]
fn backoff_caps_far_future_reset() {
    let now = 0;
    // Reset is an hour out; cap the sleep at 60s.
    let d = backoff(Some(0), None, Some(3_600_000), now);
    assert_eq!(d, Some(Duration::from_secs(60)));
}

#[test]
fn backoff_with_a_reset_in_the_past() {
    let d = backoff(Some(0), None, Some(5), 10);
    assert_eq!(d, Some(Duration::from_secs(30)));
    // The ends of the range are no trouble.
    let d = backoff(Some(0), None, Some(i64::MAX), i64::MIN);
    assert_eq!(d, Some(Duration::from_secs(60)));
}

fn header(name: &str, value: &str) -> Header {
    Header { name: name.to_string(), value: Some(value.to_string()) }
}

#[test]
fn rate_headers_are_found_by_name() {
    let rate = parse_rate_headers(&vec![
        header("X-RateLimit-Complexity-Remaining", "249000"),
        header("x-ratelimit-requests-remaining", "1499"),
        header("x-ratelimit-requests-reset", "1700000000000"),
        header("x-complexity", "12.5"),
    ]);
    assert_eq!(rate.complexity_remaining, Some(249_000));
    assert_eq!(rate.requests_remaining, Some(1_499));
    assert_eq!(rate.reset_epoch_ms, Some(1_700_000_000_000));
}

#[test]
fn headers_are_read_by_name() {
    let headers = vec![header("X-Complexity", " 12.5 "), header("content-type", "json")];
    assert_eq!(header_value(&headers, "x-complexity"), Some(" 12.5 ".to_string()));
    assert_eq!(header_value(&headers, "missing"), None);
}

#[test]
fn filters_quote_the_team() {
    assert_eq!(escape("a\"b\\c"), "a\\\"b\\\\c");
    assert_eq!(team_filter("W\"T"), "filter:{team:{key:{eq:\"W\\\"T\"}}}");
    assert!(team_query("WMT").contains("eq:\"WMT\""));
}

#[test]
fn streams_have_names_of_their_own() {
    let all = streams("WMT");
    let names: Vec<&str> = all.iter().map(|s| s.name).collect();
    for (i, a) in names.iter().enumerate() {
        for b in &names[i + 1..] {
            assert_ne!(a, b);
        }
    }
    assert_eq!(names[0], "issues");
    assert!(all[0].query.contains("filter:{team:{key:{eq:\"WMT\"}}}"));
    assert!(all[1].query.contains("filter:{issue:{team:{key:{eq:\"WMT\"}}}}"));
}

#[test]
fn endpoint_falls_back_to_the_default() {
    let mut opts = LinearImportOptions::default();
    assert_eq!(endpoint(&opts), DEFAULT_BASE_URL);
    opts.base_url = "http://localhost/graphql".to_string();
    assert_eq!(endpoint(&opts), "http://localhost/graphql");
}

fn page(more: bool, cursor: &str, cost: Option<PageCost>, left: Option<i64>) -> PageOutcome {
    PageOutcome {
        info: PageInfo { has_next_page: more, end_cursor: Some(cursor.to_string()) },
        cost,
        rate: RateHeaders {
            complexity_remaining: left,
            requests_remaining: None,
            reset_epoch_ms: None,
        },
    }
}

#[test]
fn stream_goes_on_until_its_last_page() {
    let mut state = StreamState { cursor: None, page_size: 10 };
    let step = after_page(&mut state, &page(true, "c1", Some(PageCost::Fits(80)), None), 250, 0);
    assert!(step.more);
    assert_eq!(step.checkpoint.as_deref(), Some("c1"));
    assert_eq!(step.pause, None);
    assert_eq!(state.cursor.as_deref(), Some("c1"));
    assert_eq!(state.page_size, 20);

    let step = after_page(&mut state, &page(true, "c2", None, Some(1)), 250, 0);
    assert_eq!(step.pause, Some(Duration::from_secs(30)));
    assert_eq!(state.page_size, 20);

    let step = after_page(&mut state, &page(false, "c3", Some(PageCost::Free), Some(1)), 250, 0);
    assert!(!step.more);
    assert_eq!(step.checkpoint.as_deref(), Some("c3"));
    assert_eq!(step.pause, None);
}

#[test]
fn relations_that_touch_the_team_are_kept() {
    let ids = vec!["a".to_string(), "b".to_string()];
    let ends = vec![
        Ends { issue: Some("a".to_string()), related: Some("x".to_string()) },
        Ends { issue: Some("x".to_string()), related: Some("b".to_string()) },
        Ends { issue: Some("x".to_string()), related: Some("y".to_string()) },
        Ends { issue: None, related: None },
    ];
    assert_eq!(touching(&ids, &ends), vec![true, true, false, false]);
    let of_issues = vec![Some("a".to_string()), None, Some("z".to_string())];
    assert_eq!(count_attached(&ids, &of_issues), 1);
}

fn label(id: &str, parent: Option<&str>) -> LinearLabelRef {
    LinearLabelRef {
        id: id.to_string(),
        parent: parent.map(|p| LinearLabelParent { id: p.to_string(), name: None }),
        ..Default::default()
    }
}

#[test]
fn labels_and_groups_that_are_missing_are_asked_for() {
    let issue = LinearIssue {
        labels: LinearLabelNodes { nodes: vec![label("l1", Some("g1")), label("l2", None)] },
        ..Default::default()
    };
    let mut labels = vec![label("l2", None)];
    let missing = missing_labels(&vec![issue], &labels);
    assert!(missing.contains(&"l1".to_string()));
    assert!(missing.contains(&"g1".to_string()));
    assert!(!missing.contains(&"l2".to_string()));
    add_label(&mut labels, label("l1", None));
    add_label(&mut labels, label("l1", None));
    assert_eq!(labels.len(), 2);
    assert_eq!(labels_page_size(0), 1);
    assert_eq!(labels_page_size(999), 250);
    assert!(labels_query(&vec!["x".to_string(), "y\"".to_string()])
        .contains("in:[\"x\",\"y\\\"\"]"));
}

#[test]
fn sizes_of_downloads_are_filled_in() {
    let mut list = vec![attachment("a"), attachment("b")];
    backfill_sizes(&mut list, &vec![("b".to_string(), 7)]);
    assert_eq!(list[0].size_bytes, 0);
    assert_eq!(list[1].size_bytes, 7);
}

fn attachment(id: &str) -> ExportAttachment {
    ExportAttachment {
        id: id.to_string(),
        filename: "f".to_string(),
        content_type: "text/plain".to_string(),
        size_bytes: 0,
        uploaded_by: "u".to_string(),
        uploaded_at: "t".to_string(),
        document_id: None,
        orphaned: false,
    }
}

#[test]
fn a_page_that_costs_next_to_nothing_is_doubled_at_most() {
    // The cost per item is too small for a number: it counts as nothing.
    let n = next_page_size(10, f64::from_bits(1), 8000.0, 250);
    assert_eq!(n, 20);
    assert_eq!(tuned_page_size(usize::MAX, &PageCost::Free, usize::MAX), usize::MAX);
}

#[test]
fn the_cap_on_page_sizes_is_hard() {
    for max in 1..8 {
        assert!(first_page_size(10, max) <= max);
        for cost in [PageCost::Unknown, PageCost::Free, PageCost::Fits(0), PageCost::Fits(900)] {
            let n = tuned_page_size(4, &cost, max);
            assert!((1..=max).contains(&n), "{n} under a cap of {max}");
        }
    }
    assert_eq!(first_page_size(1, 3), 3);
    // No page is empty.
    assert_eq!(first_page_size(10, 0), 1);
    assert_eq!(tuned_page_size(10, &PageCost::Free, 0), 1);
}
