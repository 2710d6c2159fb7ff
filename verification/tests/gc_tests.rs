use bgutil_rs::gc::{
    current_stale_cutoff_ms, descendant_match_value, directory_action, metric_action,
    scan_should_stop, stale_cutoff_ms, GcAction, STALE_AFTER_S,
};

#[test]
fn stale_metric_deleted_when_cleaning_enabled() {
    assert_eq!(metric_action(5, 10, true, false), GcAction::Delete);
}

#[test]
fn stale_metric_only_reported_in_dry_run() {
    assert_eq!(metric_action(5, 10, true, true), GcAction::Report);
}

#[test]
fn stale_metric_kept_when_cleaning_disabled() {
    assert_eq!(metric_action(5, 10, false, false), GcAction::Keep);
    assert_eq!(metric_action(5, 10, false, true), GcAction::Keep);
}

#[test]
fn fresh_metric_always_kept() {
    assert_eq!(metric_action(11, 10, true, false), GcAction::Keep);
    assert_eq!(metric_action(11, 10, true, true), GcAction::Keep);
    assert_eq!(metric_action(11, 10, false, false), GcAction::Keep);
}

#[test]
fn staleness_boundary_is_inclusive() {
    assert_eq!(metric_action(10, 10, true, false), GcAction::Delete);
}

#[test]
fn empty_directory_deleted_when_cleaning_enabled() {
    assert_eq!(directory_action(false, true, false), GcAction::Delete);
}

#[test]
fn empty_directory_only_reported_in_dry_run() {
    assert_eq!(directory_action(false, true, true), GcAction::Report);
}

#[test]
fn empty_directory_kept_when_cleaning_disabled() {
    assert_eq!(directory_action(false, false, false), GcAction::Keep);
    assert_eq!(directory_action(false, false, true), GcAction::Keep);
}

#[test]
fn directory_with_metrics_always_kept() {
    assert_eq!(directory_action(true, true, false), GcAction::Keep);
    assert_eq!(directory_action(true, true, true), GcAction::Keep);
    assert_eq!(directory_action(true, false, false), GcAction::Keep);
}

#[test]
fn scan_stops_on_short_page_or_end_of_range() {
    // A full page inside the range continues the scan.
    assert!(!scan_should_stop(true, 1000, 1000, 50, 100));
    // A short page exhausts the range.
    assert!(scan_should_stop(true, 999, 1000, 50, 100));
    // Reaching the end token stops the scan.
    assert!(scan_should_stop(true, 1000, 1000, 100, 100));
    assert!(scan_should_stop(true, 1000, 1000, 150, 100));
    // A disabled pass never starts.
    assert!(scan_should_stop(false, 1000, 1000, 50, 100));
}

#[test]
fn cutoff_is_fourteen_days_before_now_in_ms() {
    assert_eq!(STALE_AFTER_S, 14 * 86400);
    assert_eq!(stale_cutoff_ms(1_700_000_000), (1_700_000_000 - 1_209_600) * 1000);
}

#[test]
fn current_cutoff_reflects_the_clock() {
    let cutoff = current_stale_cutoff_ms().unwrap();
    assert_eq!(cutoff % 1000, 0);
    // Any clock after 2020 puts the cutoff well past 2019.
    assert!(cutoff > 1_546_300_800_000);
}

#[test]
fn descendant_pattern_appends_separator_and_wildcard() {
    assert_eq!(descendant_match_value("a.b"), "a.b.%");
    assert_eq!(descendant_match_value("top"), "top.%");
}
