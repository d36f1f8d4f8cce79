use rebarr::webhook::{NewWebhookEndpoint, WebhookEndpointRequest};
use rebarr::webhook_store::{create_webhook, delete_webhook, list_webhooks, update_webhook, WebhookStore};

fn hook(url: &str, enabled: bool, types: &[&str], statuses: &[&str], template: Option<&str>) -> NewWebhookEndpoint {
    NewWebhookEndpoint {
        target_url: url.to_string(),
        enabled,
        task_types: types.iter().map(|s| s.to_string()).collect(),
        task_statuses: statuses.iter().map(|s| s.to_string()).collect(),
        body_template: template.map(|s| s.to_string()),
    }
}

#[test]
fn created_endpoints_are_normalised() {
    let mut store = WebhookStore::new();
    let e = store
        .create_with_id(&hook(" https://a.example/x ", true, &["ScanDisk", " Backup", "ScanDisk"], &["Failed"], Some("  ")), 7, 100)
        .unwrap();
    assert_eq!(e.id, 7);
    assert_eq!(e.target_url, "https://a.example/x");
    assert_eq!(e.task_types, vec!["Backup".to_string(), "ScanDisk".to_string()]);
    assert_eq!(e.body_template, None);
    assert_eq!((e.created_at, e.updated_at), (100, 100));
    assert!(store.create_with_id(&hook("https://b", true, &["Backup"], &["Failed"], None), 7, 101).is_none());
    assert_eq!(store.list().len(), 1);
}

#[test]
fn events_reach_enabled_matching_endpoints_in_creation_order() {
    let mut store = WebhookStore::new();
    store.create_with_id(&hook("https://one", true, &["DownloadChapter"], &["Failed", "Completed"], Some("{{task_id}}")), 1, 10);
    store.create_with_id(&hook("https://two", false, &["DownloadChapter"], &["Failed"], None), 2, 11);
    store.create_with_id(&hook("https://three", true, &["DownloadChapter", "ScanDisk"], &["Failed"], None), 3, 12);
    let t = store.matching_targets("DownloadChapter", "Failed");
    assert_eq!(t.iter().map(|t| t.id).collect::<Vec<_>>(), vec![1, 3]);
    assert_eq!(t[0].body_template.as_deref(), Some("{{task_id}}"));
    assert_eq!(store.matching_targets("DownloadChapter", "Completed").len(), 1);
    assert!(store.matching_targets("ScanDisk", "Completed").is_empty());
    assert!(store.delete(1));
    assert!(!store.delete(1));
    assert_eq!(store.matching_targets("DownloadChapter", "Failed").iter().map(|t| t.id).collect::<Vec<_>>(), vec![3]);
}

#[test]
fn updates_keep_creation_time_and_listing_drops_half_filters() {
    let mut store = WebhookStore::new();
    store.create_with_id(&hook("https://one", true, &["Backup"], &[], None), 1, 10);
    let listed = store.list();
    assert!(listed[0].task_types.is_empty());
    let u = store.update(1, &hook("https://new", false, &["Backup"], &["Completed"], None), 50).unwrap();
    assert_eq!((u.created_at, u.updated_at, u.target_url.as_str()), (10, 50, "https://new"));
    assert!(store.update(2, &hook("https://x", true, &["Backup"], &["Completed"], None), 60).is_none());
    assert_eq!(store.list()[0].task_statuses, vec!["Completed".to_string()]);
}

#[test]
fn webhook_endpoints_check_ids_and_requests() {
    let mut store = WebhookStore::new();
    let req = WebhookEndpointRequest {
        target_url: "https://hooks.example".to_string(),
        enabled: None,
        task_types: vec!["Backup".to_string()],
        task_statuses: vec!["Completed".to_string()],
        body_template: None,
    };
    let created = create_webhook(&mut store, &req, 5).unwrap();
    assert_eq!(created.id.len(), 36);
    assert!(created.enabled);
    let listed = list_webhooks(&store);
    assert_eq!(listed[0].id, created.id);
    assert_eq!(update_webhook(&mut store, "bad", &req, 6).unwrap_err().body.error, "invalid UUID");
    let missing = "00000000-0000-0000-0000-000000000001";
    assert_eq!(update_webhook(&mut store, missing, &req, 6).unwrap_err().body.error, "webhook not found");
    let updated = update_webhook(&mut store, &created.id, &req, 6).unwrap();
    assert_eq!((updated.created_at, updated.updated_at), (5, 6));
    assert_eq!(delete_webhook(&mut store, missing).unwrap_err().body.error, "webhook not found");
    assert!(delete_webhook(&mut store, &created.id).is_ok());
    assert!(list_webhooks(&store).is_empty());
    let bad = WebhookEndpointRequest { target_url: "ftp://x".to_string(), ..req };
    assert!(create_webhook(&mut store, &bad, 7).is_err());
}
