use debrief::delivery::{
    enablement_key, is_enabled, plan_deliveries, run_exit_success, should_send_digest,
    DeliveryOutcome, StageFailure,
};
use debrief::record::{
    build_generation_payload, filter_out_renovate_pull_requests, select_in_scope, FilterError,
    MergeRecord,
};
use debrief::window::{compute_window, in_scope, TimeWindow};

fn record(author: Option<&str>, merged_at: Option<u64>) -> MergeRecord {
    MergeRecord {
        title: Some(String::from("A change")),
        body: Some(String::from("Details")),
        url: Some(String::from("https://example.test/pr/1")),
        author_login: author.map(String::from),
        merged_at,
    }
}

const TUESDAY: u64 = 1710239400; // 2024-03-12 10:30:00 UTC
const MONDAY: u64 = 1710147600; // 2024-03-11 09:00:00 UTC
const SUNDAY: u64 = 1710115199; // 2024-03-10 23:59:59 UTC
const FRIDAY: u64 = 1710525600; // 2024-03-15 18:00:00 UTC
const MIDNIGHT_MONDAY: u64 = 1710115200; // 2024-03-11 00:00:00 UTC
const MIDNIGHT_FRIDAY: u64 = 1709856000; // 2024-03-08 00:00:00 UTC
const MIDNIGHT_SATURDAY: u64 = 1709942400; // 2024-03-09 00:00:00 UTC
const MIDNIGHT_THURSDAY: u64 = 1710374400; // 2024-03-14 00:00:00 UTC

#[test]
fn window_on_tuesday_starts_midnight_monday() {
    let w = compute_window(TUESDAY);
    assert_eq!(w.start, MIDNIGHT_MONDAY);
    assert_eq!(w.reference, TUESDAY);
    assert!(w.start < w.reference);
}

#[test]
fn window_on_monday_starts_midnight_friday() {
    let w = compute_window(MONDAY);
    assert_eq!(w.start, MIDNIGHT_FRIDAY);
    assert_eq!(w.reference, MONDAY);
}

#[test]
fn window_on_sunday_starts_midnight_saturday() {
    let w = compute_window(SUNDAY);
    assert_eq!(w.start, MIDNIGHT_SATURDAY);
}

#[test]
fn window_on_friday_starts_midnight_thursday() {
    let w = compute_window(FRIDAY);
    assert_eq!(w.start, MIDNIGHT_THURSDAY);
}

#[test]
fn scope_boundaries_are_half_open() {
    let w = TimeWindow { start: MIDNIGHT_MONDAY, reference: TUESDAY };
    assert!(in_scope(Some(MIDNIGHT_MONDAY), &w));
    assert!(in_scope(Some(MIDNIGHT_MONDAY + 1), &w));
    assert!(!in_scope(Some(TUESDAY), &w));
    assert!(!in_scope(Some(MIDNIGHT_MONDAY - 1), &w));
    assert!(!in_scope(None, &w));
}

#[test]
fn select_keeps_only_merges_inside_window() {
    let w = TimeWindow { start: MIDNIGHT_MONDAY, reference: TUESDAY };
    let records = vec![
        record(Some("alice"), Some(MIDNIGHT_MONDAY + 60)),
        record(Some("bob"), None),
        record(Some("carol"), Some(MIDNIGHT_MONDAY - 60)),
        record(Some("dave"), Some(TUESDAY - 1)),
    ];
    let selected = select_in_scope(records, &w);
    assert_eq!(selected.len(), 2);
    assert_eq!(selected[0].author_login.as_deref(), Some("alice"));
    assert_eq!(selected[1].author_login.as_deref(), Some("dave"));
}

#[test]
fn filter_drops_bots_and_keeps_order() {
    let records = vec![
        record(Some("alice"), Some(1)),
        record(Some("dependabot[bot]"), Some(2)),
        record(Some("bob"), Some(3)),
        record(Some("renovate[bot]"), Some(4)),
        record(Some("carol"), Some(5)),
    ];
    let kept = filter_out_renovate_pull_requests(records).unwrap();
    let authors: Vec<_> = kept.iter().map(|r| r.author_login.clone().unwrap()).collect();
    assert_eq!(authors, vec!["alice", "bob", "carol"]);
}

#[test]
fn filter_without_bots_returns_input_unchanged() {
    let records = vec![record(Some("alice"), Some(1)), record(Some("bob"), Some(2))];
    let kept = filter_out_renovate_pull_requests(records).unwrap();
    assert_eq!(kept.len(), 2);
    assert_eq!(kept[0].author_login.as_deref(), Some("alice"));
    assert_eq!(kept[1].author_login.as_deref(), Some("bob"));
}

#[test]
fn filter_fails_on_missing_author() {
    let records = vec![record(Some("alice"), Some(1)), record(None, Some(2))];
    let err = filter_out_renovate_pull_requests(records).unwrap_err();
    assert!(matches!(err, FilterError::MissingAuthor));
}

#[test]
fn payload_lists_title_url_and_body_per_record() {
    let records = vec![record(Some("alice"), Some(1))];
    let payload = build_generation_payload(&records);
    assert_eq!(
        payload,
        "Pull request title: A change\nPull request URL: https://example.test/pr/1\nPull request body: Details\n-----\n"
    );
}

#[test]
fn payload_uses_fallbacks_for_absent_fields() {
    let records = vec![MergeRecord {
        title: None,
        body: None,
        url: None,
        author_login: Some(String::from("alice")),
        merged_at: Some(1),
    }];
    let payload = build_generation_payload(&records);
    assert_eq!(
        payload,
        "Pull request title: No title provided\nPull request URL: https://github.com\nPull request body: No body provided\n-----\n"
    );
}

#[test]
fn empty_filtered_set_sends_nothing() {
    let none: Vec<MergeRecord> = Vec::new();
    assert!(!should_send_digest(&none));
    let some = vec![record(Some("alice"), Some(1))];
    assert!(should_send_digest(&some));
}

#[test]
fn enablement_key_uses_uppercased_name() {
    assert_eq!(enablement_key("slack"), "DELIVERY_SLACK_ENABLED");
    assert_eq!(enablement_key("db"), "DELIVERY_DB_ENABLED");
}

#[test]
fn enablement_is_fail_closed() {
    assert!(!is_enabled(&None));
    assert!(is_enabled(&Some(String::from("true"))));
    assert!(!is_enabled(&Some(String::from("false"))));
    assert!(!is_enabled(&Some(String::from("TRUE"))));
    assert!(!is_enabled(&Some(String::from("yes"))));
    assert!(!is_enabled(&Some(String::from(""))));
}

#[test]
fn delivery_plan_is_independent_per_mechanism() {
    let flags = vec![Some(String::from("true")), None, Some(String::from("nope"))];
    let plan = plan_deliveries(&flags);
    assert_eq!(plan, vec![true, false, false]);
}

#[test]
fn failed_delivery_does_not_fail_the_run() {
    let outcomes = vec![DeliveryOutcome::Failed, DeliveryOutcome::Delivered];
    assert!(run_exit_success(&None, &outcomes));
}

#[test]
fn upstream_failure_fails_the_run() {
    let outcomes = vec![DeliveryOutcome::Delivered, DeliveryOutcome::Delivered];
    assert!(!run_exit_success(&Some(StageFailure::Generation), &outcomes));
    assert!(!run_exit_success(&Some(StageFailure::UpstreamFetch), &Vec::new()));
}
