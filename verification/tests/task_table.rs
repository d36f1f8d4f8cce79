use rebarr::task::{
    FailureOutcome, RetentionPolicy, Task, TaskStatus, TaskType, NANOS_PER_DAY, PRIORITY_DOWNLOAD_CHAPTER,
    PRIORITY_PROVIDER_SYNC,
};
use rebarr::task_table::{copy_task, TaskTable, NANOS_PER_MINUTE};

const NOW: i128 = 1_700_000_000 * 1_000_000_000;
const QUEUE: &str = "provider:test-provider";

fn stored(id: u128, status: TaskStatus, created_at: i128) -> Task {
    Task {
        id,
        task_type: TaskType::Backup,
        status,
        queue: "system".to_string(),
        library_id: None,
        manga_id: None,
        chapter_id: None,
        priority: 0,
        payload: None,
        attempt: 0,
        max_attempts: 3,
        last_error: None,
        created_at,
        updated_at: created_at,
        run_after: created_at,
    }
}

fn statuses(t: &TaskTable) -> Vec<&'static str> {
    let mut v: Vec<&'static str> = t.rows().iter().map(|t| rebarr::task::task_status_str(&t.status)).collect();
    v.sort();
    v
}

#[test]
fn prune_terminal_history_only_deletes_completed_and_cancelled() {
    let rows = vec![
        stored(1, TaskStatus::Completed, NOW - 40 * NANOS_PER_DAY),
        stored(2, TaskStatus::Cancelled, NOW - 35 * NANOS_PER_DAY),
        stored(3, TaskStatus::Failed, NOW - 50 * NANOS_PER_DAY),
        stored(4, TaskStatus::Pending, NOW - 60 * NANOS_PER_DAY),
        stored(5, TaskStatus::Running, NOW - 70 * NANOS_PER_DAY),
    ];
    let mut table = TaskTable::from_rows(rows).unwrap();
    let result = table.prune_terminal_history(30, 0, NOW);
    assert_eq!(result.deleted_count, 2);
    assert_eq!(result.cutoff, NOW - 30 * NANOS_PER_DAY);
    assert_eq!(statuses(&table), vec!["Failed", "Pending", "Running"]);
}

#[test]
fn prune_terminal_history_respects_min_keep_floor() {
    let rows = vec![
        stored(1, TaskStatus::Completed, NOW - 50 * NANOS_PER_DAY),
        stored(2, TaskStatus::Completed, NOW - 40 * NANOS_PER_DAY),
        stored(3, TaskStatus::Completed, NOW - 30 * NANOS_PER_DAY),
    ];
    let mut table = TaskTable::from_rows(rows).unwrap();
    let result = table.prune_terminal_history(1, 2, NOW);
    assert_eq!(result.deleted_count, 1);
    let remaining: Vec<u128> = table.rows().iter().map(|t| t.id).collect();
    assert_eq!(remaining.len(), 2);
    assert!(remaining.contains(&2));
    assert!(remaining.contains(&3));
}

#[test]
fn maybe_run_daily_retention_skips_when_disabled_or_already_ran() {
    let mut table = TaskTable::from_rows(vec![stored(1, TaskStatus::Completed, NOW - 40 * NANOS_PER_DAY)]).unwrap();
    let disabled = RetentionPolicy { enabled: false, days: 30, min_keep: 0 };
    let mut last_run: Option<i128> = None;
    assert!(table.maybe_run_daily_retention(disabled, &mut last_run, NOW).is_none());
    assert_eq!(last_run, None);

    let enabled = RetentionPolicy { enabled: true, days: 30, min_keep: 0 };
    let first = table.maybe_run_daily_retention(enabled, &mut last_run, NOW);
    assert_eq!(first.expect("run").deleted_count, 1);
    assert_eq!(last_run, Some(NOW));

    let mut rows: Vec<Task> = table.rows().iter().map(copy_task).collect();
    rows.push(stored(2, TaskStatus::Completed, NOW - 60 * NANOS_PER_DAY));
    let mut table = TaskTable::from_rows(rows).unwrap();
    let second = table.maybe_run_daily_retention(enabled, &mut last_run, NOW + NANOS_PER_DAY / 2);
    assert!(second.is_none());
    assert_eq!(last_run, Some(NOW));
    assert_eq!(table.rows().len(), 1);
}

#[test]
fn claim_next_for_queue_prioritises_provider_sync_over_older_download() {
    let mut table = TaskTable::new();
    let older = NOW - 5 * NANOS_PER_MINUTE;
    let download_id = table
        .enqueue_with_queue(TaskType::DownloadChapter, None, None, PRIORITY_DOWNLOAD_CHAPTER, Some(QUEUE), older)
        .expect("download task");
    let sync_id = table
        .enqueue_with_queue(TaskType::SyncProviderChapters, None, None, PRIORITY_PROVIDER_SYNC, Some(QUEUE), NOW)
        .expect("sync task");
    let claimed = table.claim_next_for_queue(QUEUE, NOW).expect("task exists");
    assert_eq!(claimed.id, sync_id);
    assert_eq!(claimed.task_type, TaskType::SyncProviderChapters);
    assert_ne!(claimed.id, download_id);
    assert_eq!(table.get_by_id(sync_id).unwrap().status, TaskStatus::Running);
}

#[test]
fn claim_next_for_queue_uses_fifo_when_priorities_match() {
    let mut table = TaskTable::new();
    let first_id = table
        .enqueue_with_queue(TaskType::DownloadChapter, None, None, PRIORITY_DOWNLOAD_CHAPTER, Some(QUEUE), NOW - 5 * NANOS_PER_MINUTE)
        .expect("first task");
    table
        .enqueue_with_queue(TaskType::DownloadChapter, None, None, PRIORITY_DOWNLOAD_CHAPTER, Some(QUEUE), NOW)
        .expect("second task");
    let claimed = table.claim_next_for_queue(QUEUE, NOW).expect("task exists");
    assert_eq!(claimed.id, first_id);
}

#[test]
fn enqueue_with_queue_persists_explicit_priority() {
    let mut table = TaskTable::new();
    let sync_id = table
        .enqueue_with_queue(TaskType::SyncProviderChapters, None, None, PRIORITY_PROVIDER_SYNC, Some(QUEUE), NOW)
        .expect("enqueue sync");
    let download_id = table
        .enqueue_with_queue(TaskType::DownloadChapter, None, None, PRIORITY_DOWNLOAD_CHAPTER, Some(QUEUE), NOW)
        .expect("enqueue download");
    assert_eq!(table.get_by_id(sync_id).unwrap().priority, PRIORITY_PROVIDER_SYNC);
    assert_eq!(table.get_by_id(download_id).unwrap().priority, PRIORITY_DOWNLOAD_CHAPTER);
}

#[test]
fn prioritise_task_moves_pending_download_ahead_of_provider_sync() {
    let mut table = TaskTable::new();
    let sync_id = table
        .enqueue_with_queue(TaskType::SyncProviderChapters, None, None, PRIORITY_PROVIDER_SYNC, Some(QUEUE), NOW)
        .expect("enqueue sync");
    let download_id = table
        .enqueue_with_queue(TaskType::DownloadChapter, None, None, PRIORITY_DOWNLOAD_CHAPTER, Some(QUEUE), NOW)
        .expect("enqueue download");
    assert!(table.prioritise_task(download_id, NOW));
    let claimed = table.claim_next_for_queue(QUEUE, NOW).expect("task exists");
    assert_eq!(claimed.id, download_id);
    assert_ne!(claimed.id, sync_id);
}

#[test]
fn enqueue_at_front_places_new_download_ahead_of_existing_pending_tasks() {
    let mut table = TaskTable::new();
    let existing_id = table
        .enqueue_with_queue(TaskType::DownloadChapter, None, None, PRIORITY_DOWNLOAD_CHAPTER, Some(QUEUE), NOW)
        .expect("enqueue existing");
    let urgent_id = table
        .enqueue_at_front(TaskType::DownloadChapter, None, None, QUEUE, None, NOW)
        .expect("enqueue urgent");
    assert_eq!(table.get_by_id(urgent_id).unwrap().priority, PRIORITY_DOWNLOAD_CHAPTER - 1);
    let claimed = table.claim_next_for_queue(QUEUE, NOW).expect("task exists");
    assert_eq!(claimed.id, urgent_id);
    assert_ne!(claimed.id, existing_id);
}

#[test]
fn new_tasks_default_to_the_system_queue_and_three_attempts() {
    let mut table = TaskTable::new();
    let id = table.enqueue(TaskType::ScanDisk, Some(7), None, 5, NOW).unwrap();
    let t = table.get_by_id(id).unwrap();
    assert_eq!(t.queue, "system");
    assert_eq!(t.status, TaskStatus::Pending);
    assert_eq!(t.max_attempts, 3);
    assert_eq!(t.attempt, 0);
    assert_eq!(t.run_after, NOW);
    assert!(table.is_pending_for_manga(7, TaskType::ScanDisk));
    assert!(!table.is_pending_for_manga(7, TaskType::Backup));
    assert!(table.is_pending_in_queue("system", 7, TaskType::ScanDisk));
    assert!(!table.is_pending_in_queue(QUEUE, 7, TaskType::ScanDisk));
    let lib = table.enqueue_for_library(TaskType::RefreshSuggestions, 9, 0, NOW).unwrap();
    assert!(table.is_pending_for_library(9, TaskType::RefreshSuggestions));
    table.complete(lib, NOW + 1);
    assert!(!table.is_pending_for_library(9, TaskType::RefreshSuggestions));
}

#[test]
fn failed_tasks_back_off_then_give_up() {
    let mut table = TaskTable::new();
    let id = table.enqueue(TaskType::RefreshMetadata, None, None, 0, NOW).unwrap();
    table.claim_next(NOW).unwrap();
    assert_eq!(table.fail(id, "boom", NOW), Some(FailureOutcome::Retry { attempt: 1, backoff_minutes: 1 }));
    let t = table.get_by_id(id).unwrap();
    assert_eq!(t.status, TaskStatus::Pending);
    assert_eq!(t.run_after, NOW + NANOS_PER_MINUTE);
    assert_eq!(t.last_error.as_deref(), Some("boom"));
    // Not due yet: nothing to claim.
    assert!(table.claim_next(NOW).is_none());
    assert_eq!(table.fail(id, "again", NOW), Some(FailureOutcome::Retry { attempt: 2, backoff_minutes: 2 }));
    assert_eq!(table.fail(id, "last", NOW), Some(FailureOutcome::GiveUp { attempt: 3 }));
    assert_eq!(table.get_by_id(id).unwrap().status, TaskStatus::Failed);
    assert_eq!(table.fail(12345, "nobody", NOW), None);
}

#[test]
fn cancelled_tasks_are_not_claimed_and_finished_ones_stay() {
    let mut table = TaskTable::new();
    let a = table.enqueue(TaskType::Backup, None, None, 0, NOW).unwrap();
    let b = table.enqueue(TaskType::Backup, None, None, 1, NOW).unwrap();
    table.cancel(a, NOW);
    assert_eq!(table.get_by_id(a).unwrap().status, TaskStatus::Cancelled);
    let claimed = table.claim_next(NOW).unwrap();
    assert_eq!(claimed.id, b);
    table.complete(b, NOW);
    table.cancel(b, NOW);
    assert_eq!(table.get_by_id(b).unwrap().status, TaskStatus::Completed);
}

#[test]
fn chapter_downloads_are_cancelled_and_promoted_together() {
    let mut table = TaskTable::new();
    let d1 = table.enqueue_with_queue(TaskType::DownloadChapter, None, Some(42), 10, Some(QUEUE), NOW).unwrap();
    let other = table.enqueue_with_queue(TaskType::DownloadChapter, None, Some(43), 10, Some(QUEUE), NOW).unwrap();
    let d2 = table.enqueue_with_queue(TaskType::DownloadChapter, None, Some(42), 10, Some(QUEUE), NOW + 1).unwrap();
    assert!(table.prioritise_pending_download_for_chapter(42, NOW));
    assert_eq!(table.get_by_id(d1).unwrap().priority, 9);
    assert!(!table.prioritise_pending_download_for_chapter(99, NOW));
    table.claim_next_for_queue(QUEUE, NOW).unwrap();
    assert_eq!(table.get_running_for_chapter(42), vec![d1]);
    assert_eq!(table.cancel_by_chapter(42, NOW), vec![d1, d2]);
    assert_eq!(table.get_by_id(other).unwrap().status, TaskStatus::Pending);
    assert!(table.get_running_for_chapter(42).is_empty());
}

#[test]
fn restart_puts_running_tasks_back_in_line() {
    let mut table = TaskTable::new();
    let a = table.enqueue(TaskType::Backup, None, None, 0, NOW).unwrap();
    table.enqueue(TaskType::Backup, None, None, 0, NOW).unwrap();
    table.claim_next(NOW).unwrap();
    table.set_progress(a, "{\"step\":\"half\"}", NOW + 5);
    assert_eq!(table.get_by_id(a).unwrap().payload.as_deref(), Some("{\"step\":\"half\"}"));
    assert_eq!(table.reset_running_tasks(NOW + 10), 1);
    let t = table.get_by_id(a).unwrap();
    assert_eq!(t.status, TaskStatus::Pending);
    assert_eq!(t.run_after, NOW + 10);
    assert_eq!(table.reset_running_tasks(NOW + 11), 0);
}

#[test]
fn duplicate_task_ids_are_refused() {
    assert!(TaskTable::from_rows(vec![stored(1, TaskStatus::Pending, 0), stored(1, TaskStatus::Failed, 0)]).is_none());
}
