use rebarr::task::{
    chapter_number_raw, claim_candidate, failure_outcome, next_front_priority, parse_status_filters,
    parse_task_status, parse_task_type, prune_candidates, retention_due, task_queue, task_status_str,
    task_type_str, FailureOutcome, RetentionPolicy, Task, TaskStatus, TaskType, NANOS_PER_DAY,
    PRIORITY_DOWNLOAD_CHAPTER, PRIORITY_PROVIDER_SYNC,
};

fn task(id: u128, queue: &str, status: TaskStatus, priority: i64, created_at: i128) -> Task {
    Task {
        id,
        task_type: TaskType::DownloadChapter,
        status,
        queue: queue.to_string(),
        library_id: None,
        manga_id: None,
        chapter_id: None,
        priority,
        payload: None,
        attempt: 0,
        max_attempts: 3,
        last_error: None,
        created_at,
        updated_at: created_at,
        run_after: 0,
    }
}

#[test]
fn task_type_names() {
    let all = [
        TaskType::BuildFullChapterList,
        TaskType::RefreshMetadata,
        TaskType::SyncProviderChapters,
        TaskType::DownloadChapter,
        TaskType::ScanDisk,
        TaskType::OptimiseChapter,
        TaskType::Backup,
        TaskType::RefreshSuggestions,
    ];
    for t in all {
        assert_eq!(parse_task_type(task_type_str(&t)), Some(t));
        assert_eq!(task_queue(&t), "system");
    }
    // Older names still read.
    assert_eq!(parse_task_type("ScanLibrary"), Some(TaskType::BuildFullChapterList));
    assert_eq!(parse_task_type("RefreshAniList"), Some(TaskType::RefreshMetadata));
    assert_eq!(parse_task_type("CheckNewChapter"), Some(TaskType::SyncProviderChapters));
    assert_eq!(parse_task_type("Nope"), None);
}

#[test]
fn task_status_names() {
    for s in [TaskStatus::Pending, TaskStatus::Running, TaskStatus::Completed, TaskStatus::Failed, TaskStatus::Cancelled] {
        assert_eq!(parse_task_status(task_status_str(&s)), s);
    }
    assert_eq!(parse_task_status("whatever"), TaskStatus::Pending);
}

#[test]
fn provider_sync_priority_constant_stays_above_download_priority() {
    assert!(PRIORITY_PROVIDER_SYNC < PRIORITY_DOWNLOAD_CHAPTER);
}

#[test]
fn claim_prefers_provider_sync_over_older_download() {
    let q = "provider:test-provider";
    let tasks = vec![
        task(1, q, TaskStatus::Pending, PRIORITY_DOWNLOAD_CHAPTER, 100),
        task(2, q, TaskStatus::Pending, PRIORITY_PROVIDER_SYNC, 400),
    ];
    assert_eq!(claim_candidate(&tasks, Some(q), 1_000), Some(1));
}

#[test]
fn claim_is_first_in_first_out_on_equal_priority() {
    let q = "provider:test-provider";
    let tasks = vec![
        task(1, q, TaskStatus::Pending, 5, 400),
        task(2, q, TaskStatus::Pending, 5, 100),
        task(3, "system", TaskStatus::Pending, 0, 0),
        task(4, q, TaskStatus::Running, 0, 0),
    ];
    assert_eq!(claim_candidate(&tasks, Some(q), 1_000), Some(1));
    // Without a queue every pending task competes.
    assert_eq!(claim_candidate(&tasks, None, 1_000), Some(2));
    // Tasks not yet due are not claimed.
    let mut later = task(5, q, TaskStatus::Pending, 0, 0);
    later.run_after = 5_000;
    assert_eq!(claim_candidate(&vec![later], Some(q), 1_000), None);
}

#[test]
fn front_priority_moves_ahead_of_pending_tasks() {
    let q = "provider:test-provider";
    let tasks = vec![
        task(1, q, TaskStatus::Pending, PRIORITY_PROVIDER_SYNC, 0),
        task(2, q, TaskStatus::Pending, PRIORITY_DOWNLOAD_CHAPTER, 0),
        task(3, q, TaskStatus::Running, -50, 0),
    ];
    assert_eq!(next_front_priority(&tasks, q), 0);
    assert_eq!(next_front_priority(&tasks, "empty"), -1);
    let mut all = tasks;
    all.push(task(4, q, TaskStatus::Pending, next_front_priority(&all, q), 500));
    assert_eq!(claim_candidate(&all, Some(q), 1_000), Some(3));
}

#[test]
fn failures_retry_with_doubling_backoff() {
    assert_eq!(failure_outcome(0, 3), FailureOutcome::Retry { attempt: 1, backoff_minutes: 1 });
    assert_eq!(failure_outcome(1, 3), FailureOutcome::Retry { attempt: 2, backoff_minutes: 2 });
    assert_eq!(failure_outcome(2, 3), FailureOutcome::GiveUp { attempt: 3 });
    assert_eq!(failure_outcome(4, 10), FailureOutcome::Retry { attempt: 5, backoff_minutes: 16 });
}

#[test]
fn prune_only_deletes_completed_and_cancelled() {
    let day = NANOS_PER_DAY;
    let now = 100 * day;
    let tasks = vec![
        task(1, "system", TaskStatus::Completed, 0, now - 40 * day),
        task(2, "system", TaskStatus::Cancelled, 0, now - 35 * day),
        task(3, "system", TaskStatus::Failed, 0, now - 50 * day),
        task(4, "system", TaskStatus::Pending, 0, now - 60 * day),
        task(5, "system", TaskStatus::Running, 0, now - 70 * day),
    ];
    let policy = RetentionPolicy { enabled: true, days: 30, min_keep: 0 };
    assert_eq!(prune_candidates(&tasks, policy.cutoff(now), 0), vec![1, 2]);
}

#[test]
fn prune_respects_min_keep_floor() {
    let day = NANOS_PER_DAY;
    let now = 100 * day;
    let tasks = vec![
        task(1, "system", TaskStatus::Completed, 0, now - 50 * day),
        task(2, "system", TaskStatus::Completed, 0, now - 40 * day),
        task(3, "system", TaskStatus::Completed, 0, now - 30 * day),
    ];
    let policy = RetentionPolicy { enabled: true, days: 1, min_keep: 2 };
    assert_eq!(prune_candidates(&tasks, policy.cutoff(now), policy.min_keep), vec![1]);
}

#[test]
fn daily_retention_skips_when_disabled_or_already_ran() {
    let day = NANOS_PER_DAY;
    let disabled = RetentionPolicy { enabled: false, days: 30, min_keep: 0 };
    let enabled = RetentionPolicy { enabled: true, days: 30, min_keep: 0 };
    assert!(!disabled.due(None, 10 * day));
    assert!(enabled.due(None, 10 * day));
    assert!(!enabled.due(Some(10 * day), 10 * day + day / 2));
    assert!(enabled.due(Some(10 * day), 11 * day));
    assert!(!retention_due(false, None, 0));
}

#[test]
fn chapter_numbers_show_variants() {
    assert_eq!(chapter_number_raw(Some(12), Some(5)), Some("12.5".to_string()));
    assert_eq!(chapter_number_raw(Some(12), Some(0)), Some("12".to_string()));
    assert_eq!(chapter_number_raw(Some(-3), None), Some("-3".to_string()));
    assert_eq!(chapter_number_raw(None, Some(1)), None);
}

#[test]
fn status_filters() {
    let ok = parse_status_filters(&["Pending, Running".to_string(), " ".to_string(), "Failed".to_string()]).unwrap();
    assert_eq!(ok, vec!["Pending".to_string(), "Running".to_string(), "Failed".to_string()]);
    let err = parse_status_filters(&["Pending,Bogus".to_string()]).unwrap_err();
    assert_eq!(err.status.code(), 400);
    assert_eq!(err.body.error, "invalid status filter");
    assert_eq!(parse_status_filters(&[]).unwrap(), Vec::<String>::new());
}
