use rebarr::task::{task_status_str, Task, TaskListQuery, TaskStatus, TaskType};
use rebarr::task_list::{list_tasks_query, RecentTaskQuery};
use rebarr::task_table::TaskTable;

const SEC: i128 = 1_000_000_000;
const NOW: i128 = 1_704_164_645 * SEC;

fn row(id: u128, task_type: TaskType, status: TaskStatus, manga_id: Option<u128>, created_at: i128) -> Task {
    Task {
        id,
        task_type,
        status,
        queue: "system".to_string(),
        library_id: None,
        manga_id,
        chapter_id: None,
        priority: 0,
        payload: None,
        attempt: 0,
        max_attempts: 3,
        last_error: None,
        created_at,
        updated_at: created_at,
        run_after: created_at,
    }
}

fn ids(v: &[Task]) -> Vec<u128> {
    v.iter().map(|t| t.id).collect()
}

#[test]
fn list_tasks_supports_status_filter_and_before_cursor() {
    let table = TaskTable::from_rows(vec![
        row(1, TaskType::Backup, TaskStatus::Completed, None, NOW - SEC),
        row(2, TaskType::ScanDisk, TaskStatus::Failed, None, NOW - 2 * SEC),
        row(3, TaskType::RefreshMetadata, TaskStatus::Pending, None, NOW - 3 * SEC),
    ])
    .unwrap();
    let query = TaskListQuery {
        manga_id: None,
        limit: Some(5),
        before: Some("2024-01-02T03:04:03.500Z".to_string()),
        status: vec!["Completed,Failed".to_string()],
    };
    let q = list_tasks_query(&query).unwrap();
    let tasks = table.list_recent(&q);
    assert_eq!(tasks.len(), 1);
    assert_eq!(task_status_str(&tasks[0].status), "Failed");
}

#[test]
fn list_tasks_limit_zero_keeps_explicit_all_history_behavior() {
    let table = TaskTable::from_rows(vec![
        row(1, TaskType::Backup, TaskStatus::Completed, None, NOW),
        row(2, TaskType::ScanDisk, TaskStatus::Failed, None, NOW - SEC),
    ])
    .unwrap();
    let query = TaskListQuery { manga_id: None, limit: Some(0), before: None, status: vec![] };
    let q = list_tasks_query(&query).unwrap();
    assert_eq!(table.list_recent(&q).len(), 2);
}

#[test]
fn listing_is_newest_first_keeping_stored_order_for_ties_and_cut_to_limit() {
    let table = TaskTable::from_rows(vec![
        row(1, TaskType::Backup, TaskStatus::Completed, None, NOW - 5 * SEC),
        row(2, TaskType::Backup, TaskStatus::Pending, None, NOW),
        row(3, TaskType::Backup, TaskStatus::Running, None, NOW - 5 * SEC),
        row(4, TaskType::Backup, TaskStatus::Failed, None, NOW - SEC),
    ])
    .unwrap();
    let all = RecentTaskQuery { manga_id: None, limit: None, before: None, statuses: vec![] };
    assert_eq!(ids(&table.list_recent(&all)), vec![2, 4, 1, 3]);
    let three = RecentTaskQuery { manga_id: None, limit: Some(3), before: None, statuses: vec![] };
    assert_eq!(ids(&table.list_recent(&three)), vec![2, 4, 1]);
    let negative = RecentTaskQuery { manga_id: None, limit: Some(-1), before: None, statuses: vec![] };
    assert_eq!(ids(&table.list_recent(&negative)), vec![2, 4, 1, 3]);
    let active = RecentTaskQuery {
        manga_id: None,
        limit: None,
        before: None,
        statuses: vec!["Pending".to_string(), "Running".to_string()],
    };
    assert_eq!(ids(&table.list_recent(&active)), vec![2, 3]);
}

#[test]
fn get_recent_lists_one_manga_and_treats_non_positive_limit_as_all() {
    let table = TaskTable::from_rows(vec![
        row(1, TaskType::Backup, TaskStatus::Completed, Some(7), NOW - 3 * SEC),
        row(2, TaskType::Backup, TaskStatus::Completed, Some(8), NOW - 2 * SEC),
        row(3, TaskType::Backup, TaskStatus::Completed, Some(7), NOW - SEC),
        row(4, TaskType::Backup, TaskStatus::Completed, None, NOW),
    ])
    .unwrap();
    assert_eq!(ids(&table.get_recent(Some(7), 0)), vec![3, 1]);
    assert_eq!(ids(&table.get_recent(Some(7), 1)), vec![3]);
    assert_eq!(ids(&table.get_recent(None, -5)), vec![4, 3, 2, 1]);
    assert!(table.get_recent(Some(9), 10).is_empty());
}
