use rebarr::provider_failure::{setting_or, window_start, ProviderFailures};

const NOW: i64 = 1_700_000_000;

fn sample() -> ProviderFailures {
    let mut f = ProviderFailures::new();
    f.record("A", 1, Some("old"), NOW - 7200);
    f.record("A", 1, Some("timeout"), NOW - 600);
    f.record("A", 2, None, NOW - 60);
    f.record("A", 1, Some("latest"), NOW - 30);
    f.record("B", 1, Some("other"), NOW - 10);
    f
}

#[test]
fn failures_count_since_the_last_sync() {
    let f = sample();
    assert_eq!(window_start(NOW, 60), NOW - 3600);
    // Never synced: every failure of the pair counts.
    assert_eq!(f.consecutive_failures("A", 1, None), 3);
    // Only the failures after the last successful sync count.
    assert_eq!(f.consecutive_failures("A", 1, Some(NOW - 3600)), 2);
    assert_eq!(f.consecutive_failures("A", 1, Some(NOW - 30)), 0);
    assert_eq!(f.consecutive_failures("C", 1, None), 0);
    let mut g = ProviderFailures::new();
    g.record("P", 9, None, 1000);
    assert_eq!(g.consecutive_failures("P", 9, Some(2000)), 0);
    assert_eq!(g.consecutive_failures("P", 9, Some(999)), 1);
}

#[test]
fn auto_disable_uses_stored_or_default_threshold() {
    let f = sample();
    assert!(!f.is_auto_disabled("A", 1, None, None));
    assert!(f.is_auto_disabled("A", 1, Some("3"), None));
    assert!(!f.is_auto_disabled("A", 1, Some("3"), Some(NOW - 3600)));
    assert!(f.is_auto_disabled("A", 1, Some("2"), Some(NOW - 3600)));
    assert!(!f.is_auto_disabled("A", 1, Some("junk"), None));
    assert_eq!(setting_or(Some("12"), 5), 12);
    assert_eq!(setting_or(Some("x"), 5), 5);
    assert_eq!(setting_or(None, 60), 60);
}

#[test]
fn stats_and_info_summarise_the_window() {
    let f = sample();
    assert_eq!(f.provider_stats("A", 60, NOW), (3, 2, Some(NOW - 600)));
    assert_eq!(f.provider_stats("Z", 60, NOW), (0, 0, None));
    assert_eq!(f.failure_info("A", 1, 60, NOW), (2, Some("latest".to_string()), Some(NOW - 30)));
    assert_eq!(f.failure_info("A", 2, 60, NOW), (1, None, Some(NOW - 60)));
    assert_eq!(f.failure_info("A", 3, 60, NOW), (0, None, None));
}

#[test]
fn clearing_and_cleanup_remove_rows() {
    let mut f = sample();
    assert_eq!(f.clear_for_manga("A", 1), 3);
    assert_eq!(f.consecutive_failures("A", 1, None), 0);
    assert_eq!(f.rows.len(), 2);
    let mut g = sample();
    assert_eq!(g.cleanup_old(None, NOW), 1);
    assert_eq!(g.consecutive_failures("A", 1, None), 2);
    assert_eq!(g.rows.len(), 4);
}
