use rebarr::webhook::{normalise_distinct, render_body, validate_request, TaskWebhookPayload, WebhookEndpointRequest};

fn request(url: &str, types: &[&str], statuses: &[&str]) -> WebhookEndpointRequest {
    WebhookEndpointRequest {
        target_url: url.to_string(),
        enabled: None,
        task_types: types.iter().map(|s| s.to_string()).collect(),
        task_statuses: statuses.iter().map(|s| s.to_string()).collect(),
        body_template: Some("{{status}}".to_string()),
    }
}

fn rejected(r: &WebhookEndpointRequest) -> String {
    let e = validate_request(r).unwrap_err();
    assert_eq!(e.status.code(), 400);
    e.body.error
}

#[test]
fn webhook_requests_are_checked_in_order() {
    assert_eq!(rejected(&request("  ", &["Backup"], &["Failed"])), "target_url must not be empty");
    assert_eq!(rejected(&request("ftp://x", &["Backup"], &["Failed"])), "target_url must start with http:// or https://");
    assert_eq!(rejected(&request("https://x", &[], &["Failed"])), "at least one task_type is required");
    assert_eq!(rejected(&request("https://x", &["Backup"], &[])), "at least one task_status is required");
    assert_eq!(rejected(&request("https://x", &["Bogus"], &["Failed"])), "one or more task_types are invalid");
    assert_eq!(rejected(&request("https://x", &["Backup"], &["Paused"])), "one or more task_statuses are invalid");
    assert_eq!(rejected(&request("https://x", &["SyncProviderChapters"], &["Failed"])), "one or more task_types are invalid");
}

#[test]
fn webhook_request_is_normalised() {
    let mut r = request("  https://example.com/hook ", &["DownloadChapter", "CheckNewChapter"], &["Completed", "Failed"]);
    let ok = validate_request(&r).unwrap();
    assert_eq!(ok.target_url, "https://example.com/hook");
    assert!(ok.enabled);
    assert_eq!(ok.task_types, vec!["DownloadChapter".to_string(), "CheckNewChapter".to_string()]);
    assert_eq!(ok.body_template, Some("{{status}}".to_string()));
    r.enabled = Some(false);
    assert!(!validate_request(&r).unwrap().enabled);
}

#[test]
fn filters_are_trimmed_sorted_and_distinct() {
    let v: Vec<String> = [" b", "a", "", "b ", "  ", "c"].iter().map(|s| s.to_string()).collect();
    assert_eq!(normalise_distinct(&v), vec!["a".to_string(), "b".to_string(), "c".to_string()]);
    assert_eq!(normalise_distinct(&[]), Vec::<String>::new());
}

fn payload() -> TaskWebhookPayload {
    TaskWebhookPayload {
        task_id: "t-1".to_string(),
        task_type: "DownloadChapter".to_string(),
        status: "Failed".to_string(),
        queue: "provider:x".to_string(),
        priority: -2,
        attempt: 3,
        max_attempts: 5,
        last_error: None,
        manga_id: Some("m-1".to_string()),
        manga_title: Some("Berserk".to_string()),
        chapter_id: None,
        chapter_number_raw: Some("12.5".to_string()),
        created_at: "2024-01-01T00:00:00+00:00".to_string(),
        updated_at: "2024-01-02T00:00:00+00:00".to_string(),
    }
}

#[test]
fn body_templates_are_filled() {
    let out = render_body(
        "{{manga_title}} ch {{chapter_number_raw}}: {{status}} ({{attempt}}/{{max_attempts}}, p{{priority}}) err=[{{last_error}}] {{unknown}} {{created_at}}",
        &payload(),
    );
    assert_eq!(out, "Berserk ch 12.5: Failed (3/5, p-2) err=[] {{unknown}} 2024-01-01T00:00:00+00:00");
    assert_eq!(render_body("no placeholders", &payload()), "no placeholders");
}

#[test]
fn normalised_filters_normalise_to_themselves() {
    let raw = vec![" Failed".to_string(), "Completed ".to_string(), "".to_string(), "Failed".to_string()];
    let once = normalise_distinct(&raw);
    assert_eq!(once, vec!["Completed".to_string(), "Failed".to_string()]);
    assert_eq!(normalise_distinct(&once), once);
}
