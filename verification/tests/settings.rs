use rebarr::errors::ApiStatus;
use rebarr::settings::{apply_settings_plan, read_settings, update_settings_plan, SettingsAction, StoredSettings, UpdateSettingsRequest};

fn empty_request() -> UpdateSettingsRequest {
    UpdateSettingsRequest {
        scan_interval_hours: None,
        queue_paused: None,
        browser_worker_count: None,
        preferred_language: None,
        wizard_completed: None,
        default_monitored: None,
        auto_unmonitor_completed: None,
        disable_chapter_upgrades: None,
        download_mode: None,
        task_retention_enabled: None,
        task_retention_days: None,
        task_retention_min_keep: None,
    }
}

fn writes(actions: &[SettingsAction]) -> Vec<(String, String)> {
    actions
        .iter()
        .filter_map(|a| match a {
            SettingsAction::Write { key, value } => Some((key.clone(), value.clone())),
            _ => None,
        })
        .collect()
}

fn stored(days: &str, keep: &str, enabled: &str) -> StoredSettings {
    StoredSettings {
        scan_interval_hours: String::new(),
        queue_paused: String::new(),
        browser_worker_count: String::new(),
        preferred_language: String::new(),
        wizard_completed: String::new(),
        default_monitored: String::new(),
        auto_unmonitor_completed: String::new(),
        disable_chapter_upgrades: String::new(),
        download_mode: String::new(),
        task_retention_enabled: enabled.to_string(),
        task_retention_days: days.to_string(),
        task_retention_min_keep: keep.to_string(),
    }
}

#[test]
fn retention_settings_round_trip() {
    let mut req = empty_request();
    req.task_retention_enabled = Some(true);
    req.task_retention_days = Some(45);
    req.task_retention_min_keep = Some(321);
    let plan = update_settings_plan(&req);
    assert!(plan.error.is_none());
    let w = writes(&plan.actions);
    assert_eq!(
        w,
        vec![
            ("task_retention_enabled".to_string(), "true".to_string()),
            ("task_retention_days".to_string(), "45".to_string()),
            ("task_retention_min_keep".to_string(), "321".to_string()),
        ]
    );
    let r = read_settings(&stored("45", "321", "true"));
    assert!(r.task_retention_enabled);
    assert_eq!(r.task_retention_days, 45);
    assert_eq!(r.task_retention_min_keep, 321);
    // Applied to the stored settings, the update reads back.
    let mut s = stored("", "", "");
    apply_settings_plan(&mut s, &plan.actions);
    let r = read_settings(&s);
    assert!(r.task_retention_enabled);
    assert_eq!(r.task_retention_days, 45);
    assert_eq!(r.task_retention_min_keep, 321);
}

#[test]
fn retention_settings_validate_bounds() {
    let mut req = empty_request();
    req.task_retention_days = Some(0);
    let plan = update_settings_plan(&req);
    let f = plan.error.unwrap();
    assert_eq!(f.status, ApiStatus::BadRequest);
    assert_eq!(f.body.error, "task_retention_days must be 1\u{2013}3650");
    let mut req = empty_request();
    req.task_retention_min_keep = Some(100_001);
    let plan = update_settings_plan(&req);
    let f = plan.error.unwrap();
    assert_eq!(f.status, ApiStatus::BadRequest);
    assert_eq!(f.body.error, "task_retention_min_keep must be 0\u{2013}100000");
    // The rejected keys keep their stored values.
    let mut s = stored("", "", "");
    apply_settings_plan(&mut s, &plan.actions);
    let r = read_settings(&s);
    assert_eq!(r.task_retention_days, 30);
    assert_eq!(r.task_retention_min_keep, 200);
}

#[test]
fn update_stops_at_the_first_bad_number() {
    let mut req = empty_request();
    req.scan_interval_hours = Some(12);
    req.queue_paused = Some(false);
    req.browser_worker_count = Some(17);
    req.wizard_completed = Some(true);
    let plan = update_settings_plan(&req);
    let f = plan.error.unwrap();
    assert_eq!(f.status, ApiStatus::BadRequest);
    assert_eq!(f.body.error, "browser_worker_count must be 1\u{2013}16");
    assert_eq!(
        writes(&plan.actions),
        vec![
            ("scan_interval_hours".to_string(), "12".to_string()),
            ("queue_paused".to_string(), "false".to_string()),
        ]
    );
    let mut req = empty_request();
    req.scan_interval_hours = Some(169);
    let plan = update_settings_plan(&req);
    let f = plan.error.unwrap();
    assert_eq!(f.status, ApiStatus::BadRequest);
    assert_eq!(f.body.error, "scan_interval_hours must be 1\u{2013}168");
    assert!(plan.actions.is_empty());
}

#[test]
fn update_writes_normalised_values() {
    let mut req = empty_request();
    req.browser_worker_count = Some(4);
    req.preferred_language = Some("  en ".to_string());
    req.download_mode = Some("anything".to_string());
    let plan = update_settings_plan(&req);
    assert!(plan.error.is_none());
    assert!(matches!(plan.actions[1], SettingsAction::SetBrowserWorkerCount(4)));
    assert_eq!(
        writes(&plan.actions),
        vec![
            ("browser_worker_count".to_string(), "4".to_string()),
            ("preferred_language".to_string(), "en".to_string()),
            ("download_mode".to_string(), "must_have".to_string()),
        ]
    );
}

#[test]
fn stored_values_read_with_defaults_and_bounds() {
    let r = read_settings(&stored("", "999999", ""));
    assert_eq!(r.scan_interval_hours, 6);
    assert_eq!(r.browser_worker_count, 3);
    assert_eq!(r.task_retention_days, 30);
    assert_eq!(r.task_retention_min_keep, 100_000);
    assert!(!r.task_retention_enabled);
    assert!(r.default_monitored);
    assert_eq!(r.preferred_language, None);
    assert_eq!(r.download_mode, "must_have");
    let r = read_settings(&stored("0", "x", "TRUE"));
    assert_eq!(r.task_retention_days, 1);
    assert_eq!(r.task_retention_min_keep, 200);
    assert!(!r.task_retention_enabled);
}
