use rebarr::task::TaskListQuery;
use rebarr::task_list::{
    list_tasks_grouped, list_tasks_query, parse_before, queue_snapshot, queue_snapshot_queries, queued_task_from_row,
    QueuedTask, QueuedTaskRow, RecentTask,
};

fn row(id: &str, queue: &str, status: &str, created_at: i128, base: Option<i64>, variant: Option<i64>) -> QueuedTaskRow {
    QueuedTaskRow {
        id: id.to_string(),
        task_type: "DownloadChapter".to_string(),
        status: status.to_string(),
        queue: queue.to_string(),
        manga_id: None,
        chapter_id: None,
        priority: 0,
        attempt: 0,
        max_attempts: 3,
        last_error: None,
        progress: None,
        manga_title: Some("Title".to_string()),
        chapter_base: base,
        chapter_variant: variant,
        created_at,
        updated_at: created_at,
    }
}

fn task(id: &str, queue: &str, status: &str, created_at: i128) -> QueuedTask {
    queued_task_from_row(row(id, queue, status, created_at, None, None))
}

fn ids(tasks: &[QueuedTask]) -> Vec<&str> {
    tasks.iter().map(|t| t.id.as_str()).collect()
}

#[test]
fn rows_write_out_chapter_numbers() {
    assert_eq!(queued_task_from_row(row("a", "system", "Pending", 1, Some(12), None)).chapter_number_raw.as_deref(), Some("12"));
    assert_eq!(queued_task_from_row(row("a", "system", "Pending", 1, Some(12), Some(5))).chapter_number_raw.as_deref(), Some("12.5"));
    assert_eq!(queued_task_from_row(row("a", "system", "Pending", 1, None, Some(5))).chapter_number_raw, None);
}

#[test]
fn tasks_are_grouped_by_queue() {
    let tasks = vec![
        task("p1", "provider:MangaDex", "Pending", 10),
        task("p2", "provider:MangaDex", "Running", 30),
        task("p3", "provider:MangaDex", "Pending", 5),
        task("p4", "provider:MangaDex", "Running", 20),
        task("s1", "system", "Running", 50),
        task("s2", "system", "Pending", 40),
        task("x1", "provider:Unknown", "Pending", 1),
    ];
    let providers = vec![("MangaDex".to_string(), 3), ("Comick".to_string(), 1), ("MangaDex".to_string(), 3)];
    let q = list_tasks_grouped(tasks, &providers);
    assert_eq!(q.len(), 4);
    assert_eq!(q[0].display_name, "System");
    assert!(!q[0].is_provider);
    assert_eq!(ids(&q[0].tasks), vec!["s1", "s2"]);
    assert_eq!((q[0].running_count, q[0].pending_count, q[0].total_count, q[0].worker_count), (1, 1, 2, 2));
    assert_eq!(q[1].provider_name.as_deref(), Some("MangaDex"));
    assert_eq!(ids(&q[1].tasks), vec!["p4", "p2", "p3", "p1"]);
    assert_eq!((q[1].running_count, q[1].pending_count, q[1].total_count, q[1].worker_count), (2, 2, 4, 3));
    assert!(q[2].tasks.is_empty());
    assert_eq!((q[2].display_name.as_str(), q[2].total_count, q[2].worker_count), ("Comick", 0, 1));
    assert!(q[3].tasks.is_empty());
}

#[test]
fn equal_times_keep_their_order() {
    let tasks = vec![
        task("b", "provider:P", "Pending", 7),
        task("a", "provider:P", "Pending", 7),
        task("c", "provider:P", "Running", 9),
    ];
    let q = list_tasks_grouped(tasks, &vec![("P".to_string(), 2)]);
    assert_eq!(ids(&q[1].tasks), vec!["c", "b", "a"]);
}

fn recent(id: &str, status: &str, created_at: i128) -> RecentTask {
    RecentTask {
        id: id.to_string(),
        task_type: "ScanDisk".to_string(),
        status: status.to_string(),
        manga_id: None,
        chapter_id: None,
        priority: 0,
        attempt: 0,
        max_attempts: 3,
        last_error: None,
        progress: None,
        manga_title: None,
        chapter_number_raw: None,
        created_at,
        updated_at: created_at,
    }
}

#[test]
fn task_list_queries_are_checked_in_order() {
    let q = TaskListQuery {
        manga_id: Some("7a2f4e10-c13b-5a80-b4e2-00c09d1a77f3".to_string()),
        limit: Some(0),
        before: Some("2024-01-02T03:04:05.5Z".to_string()),
        status: vec!["Pending, Failed".to_string()],
    };
    let r = list_tasks_query(&q).unwrap();
    assert_eq!(r.manga_id, Some(0x7a2f_4e10_c13b_5a80_b4e2_00c0_9d1a_77f3));
    assert_eq!(r.limit, None);
    assert_eq!(r.before, Some(1_704_164_645_500_000_000));
    assert_eq!(r.statuses, vec!["Pending".to_string(), "Failed".to_string()]);
    let bad_id = TaskListQuery { manga_id: Some("x".to_string()), limit: Some(5), before: Some("nope".to_string()), status: vec![] };
    assert_eq!(list_tasks_query(&bad_id).unwrap_err().body.error, "invalid manga_id");
    let bad_before = TaskListQuery { manga_id: None, limit: Some(5), before: Some("nope".to_string()), status: vec!["Bogus".to_string()] };
    assert_eq!(list_tasks_query(&bad_before).unwrap_err().body.error, "invalid before timestamp");
    let ok = TaskListQuery { manga_id: None, limit: Some(5), before: None, status: vec![] };
    assert_eq!(list_tasks_query(&ok).unwrap().limit, Some(5));
    assert_eq!(parse_before(Some("1970-01-01T00:00:01+01:00")).unwrap(), Some(-3_599_000_000_000));
}

#[test]
fn queue_snapshots_cap_history_and_sort_newest_first() {
    let (active, finished, limit) = queue_snapshot_queries(None, 0);
    assert_eq!(limit, 1);
    assert_eq!(active.statuses, vec!["Pending".to_string(), "Running".to_string()]);
    assert_eq!(finished.limit, Some(2));
    let snap = queue_snapshot(
        vec![recent("a1", "Running", 50), recent("a2", "Pending", 10)],
        vec![recent("t1", "Completed", 40), recent("t2", "Failed", 30), recent("t3", "Failed", 20)],
        2,
    );
    assert!(snap.has_more_history);
    assert_eq!(snap.next_before, Some(30));
    assert_eq!(snap.tasks.iter().map(|t| t.id.as_str()).collect::<Vec<_>>(), vec!["a1", "t1", "t2", "a2"]);
    let snap = queue_snapshot(vec![], vec![recent("t1", "Completed", 40)], 2);
    assert!(!snap.has_more_history);
    assert_eq!(snap.next_before, Some(40));
}
