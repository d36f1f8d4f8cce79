use vstd::prelude::*;
use crate::errors::{bad_request, is_failure, ApiFailure, ApiStatus};
use crate::text::{chars_of, i64_to_string, int_digits, push_char, str_eq, trim_chars, trim_seq, write_i64};

verus! {

/// The kinds of background work the scheduler runs.
#[derive(Debug, Clone, Copy, PartialEq, Eq, Structural)]
pub enum TaskType {
    /// Build a full chapter list from all enabled providers.
    BuildFullChapterList,
    /// Refresh metadata from the source (AniList, local, ...).
    RefreshMetadata,
    /// Sync chapters from a single provider.
    SyncProviderChapters,
    /// Download a chapter.
    DownloadChapter,
    /// Scan disk for existing chapter files.
    ScanDisk,
    /// Optimise chapter images.
    OptimiseChapter,
    /// Backup the database.
    Backup,
    /// Refresh cached library suggestions from AniList.
    RefreshSuggestions,
}

/// Stored name of a task type.
pub open spec fn task_type_name(t: TaskType) -> Seq<char> {
    match t {
        TaskType::BuildFullChapterList => "BuildFullChapterList"@,
        TaskType::RefreshMetadata => "RefreshMetadata"@,
        TaskType::SyncProviderChapters => "SyncProviderChapters"@,
        TaskType::DownloadChapter => "DownloadChapter"@,
        TaskType::ScanDisk => "ScanDisk"@,
        TaskType::OptimiseChapter => "OptimiseChapter"@,
        TaskType::Backup => "Backup"@,
        TaskType::RefreshSuggestions => "RefreshSuggestions"@,
    }
}

/// The name under which a task type is stored and reported.
pub fn task_type_str(t: &TaskType) -> (s: &'static str)
    ensures
        s@ == task_type_name(*t),
{
    match t {
        TaskType::BuildFullChapterList => "BuildFullChapterList",
        TaskType::RefreshMetadata => "RefreshMetadata",
        TaskType::SyncProviderChapters => "SyncProviderChapters",
        TaskType::DownloadChapter => "DownloadChapter",
        TaskType::ScanDisk => "ScanDisk",
        TaskType::OptimiseChapter => "OptimiseChapter",
        TaskType::Backup => "Backup",
        TaskType::RefreshSuggestions => "RefreshSuggestions",
    }
}

/// Lifecycle state of a task.
#[derive(Debug, Clone, Copy, PartialEq, Eq, Structural)]
pub enum TaskStatus {
    Pending,
    Running,
    Completed,
    Failed,
    Cancelled,
}

/// Stored name of a task status.
pub open spec fn task_status_name(s: TaskStatus) -> Seq<char> {
    match s {
        TaskStatus::Pending => "Pending"@,
        TaskStatus::Running => "Running"@,
        TaskStatus::Completed => "Completed"@,
        TaskStatus::Failed => "Failed"@,
        TaskStatus::Cancelled => "Cancelled"@,
    }
}

/// The name under which a task status is stored and reported.
pub fn task_status_str(status: &TaskStatus) -> (s: &'static str)
    ensures
        s@ == task_status_name(*status),
{
    match status {
        TaskStatus::Pending => "Pending",
        TaskStatus::Running => "Running",
        TaskStatus::Completed => "Completed",
        TaskStatus::Failed => "Failed",
        TaskStatus::Cancelled => "Cancelled",
    }
}

/// The task type a stored name stands for; older names are still understood.
pub open spec fn parse_task_type_spec(s: Seq<char>) -> Option<TaskType> {
    if s == "ScanLibrary"@ || s == "BuildFullChapterList"@ {
        Some(TaskType::BuildFullChapterList)
    } else if s == "RefreshAniList"@ || s == "RefreshMetadata"@ {
        Some(TaskType::RefreshMetadata)
    } else if s == "CheckNewChapter"@ || s == "SyncProviderChapters"@ {
        Some(TaskType::SyncProviderChapters)
    } else if s == "DownloadChapter"@ {
        Some(TaskType::DownloadChapter)
    } else if s == "ScanDisk"@ {
        Some(TaskType::ScanDisk)
    } else if s == "OptimiseChapter"@ {
        Some(TaskType::OptimiseChapter)
    } else if s == "Backup"@ {
        Some(TaskType::Backup)
    } else if s == "RefreshSuggestions"@ {
        Some(TaskType::RefreshSuggestions)
    } else {
        None
    }
}

/// Reads a stored task type name; `None` for an unknown name.
pub fn parse_task_type(s: &str) -> (r: Option<TaskType>)
    ensures
        r == parse_task_type_spec(s@),
{
    if str_eq(s, "ScanLibrary") || str_eq(s, "BuildFullChapterList") {
        Some(TaskType::BuildFullChapterList)
    } else if str_eq(s, "RefreshAniList") || str_eq(s, "RefreshMetadata") {
        Some(TaskType::RefreshMetadata)
    } else if str_eq(s, "CheckNewChapter") || str_eq(s, "SyncProviderChapters") {
        Some(TaskType::SyncProviderChapters)
    } else if str_eq(s, "DownloadChapter") {
        Some(TaskType::DownloadChapter)
    } else if str_eq(s, "ScanDisk") {
        Some(TaskType::ScanDisk)
    } else if str_eq(s, "OptimiseChapter") {
        Some(TaskType::OptimiseChapter)
    } else if str_eq(s, "Backup") {
        Some(TaskType::Backup)
    } else if str_eq(s, "RefreshSuggestions") {
        Some(TaskType::RefreshSuggestions)
    } else {
        None
    }
}

/// The task status a stored name stands for; anything unknown reads as pending.
pub open spec fn parse_task_status_spec(s: Seq<char>) -> TaskStatus {
    if s == "Running"@ {
        TaskStatus::Running
    } else if s == "Completed"@ {
        TaskStatus::Completed
    } else if s == "Failed"@ {
        TaskStatus::Failed
    } else if s == "Cancelled"@ {
        TaskStatus::Cancelled
    } else {
        TaskStatus::Pending
    }
}

/// Reads a stored task status name.
pub fn parse_task_status(s: &str) -> (r: TaskStatus)
    ensures
        r == parse_task_status_spec(s@),
{
    if str_eq(s, "Running") {
        TaskStatus::Running
    } else if str_eq(s, "Completed") {
        TaskStatus::Completed
    } else if str_eq(s, "Failed") {
        TaskStatus::Failed
    } else if str_eq(s, "Cancelled") {
        TaskStatus::Cancelled
    } else {
        TaskStatus::Pending
    }
}

/// Every task type reads back from its stored name.
pub proof fn law_task_type_round_trip(t: TaskType)
    ensures
        parse_task_type_spec(task_type_name(t)) == Some(t),
{
    reveal_strlit("ScanLibrary");
    reveal_strlit("BuildFullChapterList");
    reveal_strlit("RefreshAniList");
    reveal_strlit("RefreshMetadata");
    reveal_strlit("CheckNewChapter");
    reveal_strlit("SyncProviderChapters");
    reveal_strlit("DownloadChapter");
    reveal_strlit("ScanDisk");
    reveal_strlit("OptimiseChapter");
    reveal_strlit("Backup");
    reveal_strlit("RefreshSuggestions");
    match t {
        TaskType::BuildFullChapterList => {
            assert("BuildFullChapterList"@.len() != "ScanLibrary"@.len());
        },
        TaskType::RefreshMetadata => {
            assert("RefreshMetadata"@.len() != "ScanLibrary"@.len());
            assert("RefreshMetadata"@.len() != "BuildFullChapterList"@.len());
            assert("RefreshMetadata"@.len() != "RefreshAniList"@.len());
        },
        TaskType::SyncProviderChapters => {
            assert("SyncProviderChapters"@.len() != "ScanLibrary"@.len());
            assert("SyncProviderChapters"@[0] != "BuildFullChapterList"@[0]);
            assert("SyncProviderChapters"@.len() != "RefreshAniList"@.len());
            assert("SyncProviderChapters"@.len() != "RefreshMetadata"@.len());
            assert("SyncProviderChapters"@.len() != "CheckNewChapter"@.len());
        },
        TaskType::DownloadChapter => {
            assert("DownloadChapter"@.len() != "ScanLibrary"@.len());
            assert("DownloadChapter"@.len() != "BuildFullChapterList"@.len());
            assert("DownloadChapter"@.len() != "RefreshAniList"@.len());
            assert("DownloadChapter"@[0] != "RefreshMetadata"@[0]);
            assert("DownloadChapter"@[0] != "CheckNewChapter"@[0]);
            assert("DownloadChapter"@.len() != "SyncProviderChapters"@.len());
        },
        TaskType::ScanDisk => {
            assert("ScanDisk"@.len() != "ScanLibrary"@.len());
            assert("ScanDisk"@.len() != "BuildFullChapterList"@.len());
            assert("ScanDisk"@.len() != "RefreshAniList"@.len());
            assert("ScanDisk"@.len() != "RefreshMetadata"@.len());
            assert("ScanDisk"@.len() != "CheckNewChapter"@.len());
            assert("ScanDisk"@.len() != "SyncProviderChapters"@.len());
            assert("ScanDisk"@.len() != "DownloadChapter"@.len());
        },
        TaskType::OptimiseChapter => {
            assert("OptimiseChapter"@.len() != "ScanLibrary"@.len());
            assert("OptimiseChapter"@.len() != "BuildFullChapterList"@.len());
            assert("OptimiseChapter"@.len() != "RefreshAniList"@.len());
            assert("OptimiseChapter"@[0] != "RefreshMetadata"@[0]);
            assert("OptimiseChapter"@[0] != "CheckNewChapter"@[0]);
            assert("OptimiseChapter"@.len() != "SyncProviderChapters"@.len());
            assert("OptimiseChapter"@[0] != "DownloadChapter"@[0]);
            assert("OptimiseChapter"@.len() != "ScanDisk"@.len());
        },
        TaskType::Backup => {
            assert("Backup"@.len() != "ScanLibrary"@.len());
            assert("Backup"@.len() != "BuildFullChapterList"@.len());
            assert("Backup"@.len() != "RefreshAniList"@.len());
            assert("Backup"@.len() != "RefreshMetadata"@.len());
            assert("Backup"@.len() != "CheckNewChapter"@.len());
            assert("Backup"@.len() != "SyncProviderChapters"@.len());
            assert("Backup"@.len() != "DownloadChapter"@.len());
            assert("Backup"@.len() != "ScanDisk"@.len());
            assert("Backup"@.len() != "OptimiseChapter"@.len());
        },
        TaskType::RefreshSuggestions => {
            assert("RefreshSuggestions"@.len() != "ScanLibrary"@.len());
            assert("RefreshSuggestions"@.len() != "BuildFullChapterList"@.len());
            assert("RefreshSuggestions"@.len() != "RefreshAniList"@.len());
            assert("RefreshSuggestions"@.len() != "RefreshMetadata"@.len());
            assert("RefreshSuggestions"@.len() != "CheckNewChapter"@.len());
            assert("RefreshSuggestions"@.len() != "SyncProviderChapters"@.len());
            assert("RefreshSuggestions"@.len() != "DownloadChapter"@.len());
            assert("RefreshSuggestions"@.len() != "ScanDisk"@.len());
            assert("RefreshSuggestions"@.len() != "OptimiseChapter"@.len());
            assert("RefreshSuggestions"@.len() != "Backup"@.len());
        },
    }
}

/// Every task status reads back from its stored name.
pub proof fn law_task_status_round_trip(s: TaskStatus)
    ensures
        parse_task_status_spec(task_status_name(s)) == s,
{
    reveal_strlit("Pending");
    reveal_strlit("Running");
    reveal_strlit("Completed");
    reveal_strlit("Failed");
    reveal_strlit("Cancelled");
    match s {
        TaskStatus::Pending => {
            assert("Pending"@[0] != "Running"@[0]);
            assert("Pending"@.len() != "Completed"@.len());
            assert("Pending"@.len() != "Failed"@.len());
            assert("Pending"@.len() != "Cancelled"@.len());
        },
        TaskStatus::Running => {
        },
        TaskStatus::Completed => {
            assert("Completed"@.len() != "Running"@.len());
        },
        TaskStatus::Failed => {
            assert("Failed"@.len() != "Running"@.len());
            assert("Failed"@.len() != "Completed"@.len());
        },
        TaskStatus::Cancelled => {
            assert("Cancelled"@.len() != "Running"@.len());
            assert("Cancelled"@[1] != "Completed"@[1]);
            assert("Cancelled"@.len() != "Failed"@.len());
        },
    }
}

/// The queue a task type goes to when no queue is given: every type runs on the
/// system queue (downloads are placed on provider queues by their callers).
pub fn task_queue(task_type: &TaskType) -> (q: &'static str)
    ensures
        q@ == "system"@,
{
    match task_type {
        TaskType::BuildFullChapterList => "system",
        TaskType::RefreshMetadata => "system",
        TaskType::SyncProviderChapters => "system",
        TaskType::ScanDisk => "system",
        TaskType::OptimiseChapter => "system",
        TaskType::Backup => "system",
        TaskType::RefreshSuggestions => "system",
        TaskType::DownloadChapter => "system",
    }
}

/// How many finished tasks the queue page shows by default.
pub const DEFAULT_QUEUE_TERMINAL_LIMIT: i64 = 200;

/// Priority of provider chapter syncs; lower values run first.
pub const PRIORITY_PROVIDER_SYNC: i64 = 1;

/// Priority of chapter downloads.
pub const PRIORITY_DOWNLOAD_CHAPTER: i64 = 10;

/// Priority below which "front of queue" priorities are allocated when a queue is empty.
pub const PRIORITY_QUEUE_FRONT_SEED: i64 = 0;

/// Provider syncs outrank downloads, so chapters are discovered before the
/// download backlog is drained.
pub proof fn law_provider_sync_outranks_download()
    ensures
        PRIORITY_PROVIDER_SYNC < PRIORITY_DOWNLOAD_CHAPTER,
{
}

/// Display form of a chapter number: `base`, or `base.variant` when the variant is not 0.
pub open spec fn chapter_number_spec(base: i64, variant: i64) -> Seq<char> {
    if variant == 0 {
        int_digits(base as int)
    } else {
        int_digits(base as int) + seq!['.'] + int_digits(variant as int)
    }
}

/// The display form of a chapter number, when the chapter is known.
pub fn chapter_number_raw(base: Option<i64>, variant: Option<i64>) -> (r: Option<String>)
    ensures
        match base {
            None => r is None,
            Some(b) => r is Some && r.unwrap()@ == chapter_number_spec(
                b,
                match variant {
                    Some(v) => v,
                    None => 0,
                },
            ),
        },
{
    match base {
        None => None,
        Some(b) => {
            let v = match variant {
                Some(v) => v,
                None => 0,
            };
            if v == 0 {
                Some(i64_to_string(b))
            } else {
                let mut s = String::new();
                write_i64(&mut s, b);
                push_char(&mut s, '.');
                write_i64(&mut s, v);
                assert(s@ =~= chapter_number_spec(b, v));
                Some(s)
            }
        },
    }
}

// ---------------------------------------------------------------------------
// Queue order
// ---------------------------------------------------------------------------

/// A stored task. Instants are nanoseconds since the Unix epoch.
#[derive(Debug)]
pub struct Task {
    pub id: u128,
    pub task_type: TaskType,
    pub status: TaskStatus,
    pub queue: String,
    pub library_id: Option<u128>,
    pub manga_id: Option<u128>,
    pub chapter_id: Option<u128>,
    /// Lower values run first.
    pub priority: i64,
    pub payload: Option<String>,
    pub attempt: i64,
    pub max_attempts: i64,
    pub last_error: Option<String>,
    pub created_at: i128,
    pub updated_at: i128,
    /// The task is not run before this instant.
    pub run_after: i128,
}

/// A task can be claimed: pending, due, and in the queue asked for (any queue when none is given).
pub open spec fn claimable(t: Task, queue: Option<Seq<char>>, now: int) -> bool {
    &&& t.status == TaskStatus::Pending
    &&& t.run_after <= now
    &&& match queue {
        Some(q) => t.queue@ == q,
        None => true,
    }
}

/// Claim order: lower priority value first, then older first.
pub open spec fn claims_before(a: Task, b: Task) -> bool {
    a.priority < b.priority || (a.priority == b.priority && a.created_at < b.created_at)
}

/// The task that a claim takes: a claimable task that no claimable task precedes in
/// claim order, the first such in `tasks`; none when nothing is claimable.
pub open spec fn claim_choice_ok(tasks: Seq<Task>, queue: Option<Seq<char>>, now: int, r: Option<usize>) -> bool {
    match r {
        None => forall|j: int| 0 <= j < tasks.len() ==> !claimable(#[trigger] tasks[j], queue, now),
        Some(i) => {
            &&& i < tasks.len()
            &&& claimable(tasks[i as int], queue, now)
            &&& forall|j: int| 0 <= j < tasks.len() && claimable(#[trigger] tasks[j], queue, now) ==> !claims_before(tasks[j], tasks[i as int])
            &&& forall|j: int| 0 <= j < i && claimable(#[trigger] tasks[j], queue, now) ==> claims_before(tasks[i as int], tasks[j])
        },
    }
}

/// Which task a claim takes (`queue` `None` claims from every queue).
pub fn claim_candidate(tasks: &[Task], queue: Option<&str>, now: i128) -> (r: Option<usize>)
    ensures
        claim_choice_ok(tasks@, match queue { Some(q) => Some(q@), None => None }, now as int, r),
{
    let ghost qv = match queue { Some(q) => Some(q@), None => None };
    let mut best: Option<usize> = None;
    let mut i: usize = 0;
    while i < tasks.len()
        invariant
            i <= tasks@.len(),
            qv == match queue { Some(q) => Some(q@), None => None },
            claim_choice_ok(tasks@.take(i as int), qv, now as int, best),
        decreases tasks.len() - i,
    {
        let t = &tasks[i];
        let in_queue = match queue {
            Some(q) => str_eq(t.queue.as_str(), q),
            None => true,
        };
        let ghost pre = tasks@.take(i as int);
        let ghost post = tasks@.take(i + 1);
        assert(post =~= pre.push(tasks@[i as int]));
        if t.status == TaskStatus::Pending && t.run_after <= now && in_queue {
            match best {
                None => {
                    best = Some(i);
                },
                Some(b) => {
                    let tb = &tasks[b];
                    if t.priority < tb.priority || (t.priority == tb.priority && t.created_at < tb.created_at) {
                        best = Some(i);
                    }
                },
            }
        }
        proof {
            assert forall|j: int| 0 <= j < i implies post[j] == pre[j] by {}
        }
        i = i + 1;
    }
    assert(tasks@.take(tasks@.len() as int) =~= tasks@);
    best
}

/// Smallest priority among the pending tasks of queue `q`, if any.
pub open spec fn min_pending_priority(tasks: Seq<Task>, q: Seq<char>) -> Option<int>
    decreases tasks.len(),
{
    if tasks.len() == 0 {
        None
    } else {
        let m = min_pending_priority(tasks.drop_last(), q);
        let t = tasks.last();
        if t.status == TaskStatus::Pending && t.queue@ == q {
            match m {
                Some(p) => if (t.priority as int) < p { Some(t.priority as int) } else { Some(p) },
                None => Some(t.priority as int),
            }
        } else {
            m
        }
    }
}

/// One below the smallest pending priority of the queue (0 when none is pending),
/// saturating at `i64::MIN`.
pub open spec fn front_priority_spec(tasks: Seq<Task>, q: Seq<char>) -> int {
    let m = match min_pending_priority(tasks, q) {
        Some(p) => p,
        None => PRIORITY_QUEUE_FRONT_SEED as int,
    };
    if m == i64::MIN as int { m } else { m - 1 }
}

pub proof fn lemma_min_pending_bounds(tasks: Seq<Task>, q: Seq<char>)
    ensures
        match min_pending_priority(tasks, q) {
            Some(p) => i64::MIN <= p <= i64::MAX
                && (forall|j: int| 0 <= j < tasks.len() && (#[trigger] tasks[j]).status == TaskStatus::Pending && tasks[j].queue@ == q ==> p <= tasks[j].priority),
            None => forall|j: int| 0 <= j < tasks.len() ==> !((#[trigger] tasks[j]).status == TaskStatus::Pending && tasks[j].queue@ == q),
        },
    decreases tasks.len(),
{
    if tasks.len() > 0 {
        lemma_min_pending_bounds(tasks.drop_last(), q);
        assert forall|j: int| 0 <= j < tasks.len() - 1 implies tasks.drop_last()[j] == tasks[j] by {}
    }
}

/// The priority that puts a new or promoted task at the front of queue `q`.
pub fn next_front_priority(tasks: &[Task], queue: &str) -> (r: i64)
    ensures
        r == front_priority_spec(tasks@, queue@),
{
    let mut m: Option<i64> = None;
    let mut i: usize = 0;
    while i < tasks.len()
        invariant
            i <= tasks@.len(),
            match min_pending_priority(tasks@.take(i as int), queue@) {
                Some(p) => m == Some(p as i64),
                None => m is None,
            },
        decreases tasks.len() - i,
    {
        proof { lemma_min_pending_bounds(tasks@.take(i as int), queue@); }
        assert(tasks@.take(i + 1).drop_last() =~= tasks@.take(i as int));
        let t = &tasks[i];
        if t.status == TaskStatus::Pending && str_eq(t.queue.as_str(), queue) {
            m = match m {
                Some(p) => if t.priority < p { Some(t.priority) } else { Some(p) },
                None => Some(t.priority),
            };
        }
        i = i + 1;
    }
    assert(tasks@.take(tasks@.len() as int) =~= tasks@);
    proof { lemma_min_pending_bounds(tasks@, queue@); }
    let base = match m {
        Some(p) => p,
        None => PRIORITY_QUEUE_FRONT_SEED,
    };
    if base == i64::MIN { base } else { base - 1 }
}

/// A task promoted to the front of its queue is the next one claimed from it,
/// provided it is due and no pending task of the queue already sits at `i64::MIN`.
pub proof fn law_front_priority_claimed_next(tasks: Seq<Task>, x: int, now: int, r: Option<usize>)
    requires
        0 <= x < tasks.len(),
        tasks[x].status == TaskStatus::Pending,
        tasks[x].run_after <= now,
        forall|j: int| 0 <= j < tasks.len() && (#[trigger] tasks[j]).status == TaskStatus::Pending && tasks[j].queue@ == tasks[x].queue@ ==> tasks[j].priority > i64::MIN,
        claim_choice_ok(
            tasks.update(x, Task { priority: front_priority_spec(tasks, tasks[x].queue@) as i64, ..tasks[x] }),
            Some(tasks[x].queue@),
            now,
            r,
        ),
    ensures
        r == Some(x as usize),
{
    let q = tasks[x].queue@;
    lemma_min_pending_bounds(tasks, q);
    let p = front_priority_spec(tasks, q);
    let t2 = tasks.update(x, Task { priority: p as i64, ..tasks[x] });
    assert(claimable(t2[x], Some(q), now));
    match r {
        None => {
            assert(!claimable(t2[x], Some(q), now));
        },
        Some(i) => {
            if i as int != x {
                assert(claimable(t2[i as int], Some(q), now));
                assert(t2[i as int] == tasks[i as int]);
                assert(claims_before(t2[x], t2[i as int]));
            }
        },
    }
}

/// Two due pending tasks of one queue with the same priority are claimed oldest first.
pub proof fn law_claim_fifo_on_equal_priority(tasks: Seq<Task>, a: usize, b: usize, q: Seq<char>, now: int, r: Option<usize>)
    requires
        0 <= a < tasks.len(),
        0 <= b < tasks.len(),
        claimable(tasks[a as int], Some(q), now),
        claimable(tasks[b as int], Some(q), now),
        tasks[a as int].priority == tasks[b as int].priority,
        tasks[a as int].created_at < tasks[b as int].created_at,
        claim_choice_ok(tasks, Some(q), now, r),
    ensures
        r != Some(b),
{
    if r == Some(b) {
        assert(claims_before(tasks[a as int], tasks[b as int]));
    }
}

// ---------------------------------------------------------------------------
// Failure handling
// ---------------------------------------------------------------------------

/// What happens to a failed task.
#[derive(Debug, Clone, Copy, PartialEq, Eq, Structural)]
pub enum FailureOutcome {
    /// Pending again after `backoff_minutes`, with the attempt count raised.
    Retry { attempt: i64, backoff_minutes: i64 },
    /// Failed for good, with the attempt count raised.
    GiveUp { attempt: i64 },
}

/// Two to the power `n`.
pub open spec fn pow2(n: nat) -> nat
    decreases n,
{
    if n == 0 { 1 } else { 2 * pow2((n - 1) as nat) }
}

/// A failed attempt is retried while attempts remain, after `2^attempt` minutes.
pub open spec fn failure_outcome_spec(attempt: i64, max_attempts: i64) -> FailureOutcome {
    if attempt + 1 < max_attempts {
        FailureOutcome::Retry { attempt: (attempt + 1) as i64, backoff_minutes: pow2(attempt as nat) as i64 }
    } else {
        FailureOutcome::GiveUp { attempt: (attempt + 1) as i64 }
    }
}

/// Decides what becomes of a failed task. A retry is only defined up to 47
/// attempts: beyond that the backoff in minutes no longer fits a time span.
pub fn failure_outcome(attempt: i64, max_attempts: i64) -> (r: FailureOutcome)
    requires
        attempt < i64::MAX,
        attempt + 1 < max_attempts ==> 0 <= attempt <= 47,
    ensures
        r == failure_outcome_spec(attempt, max_attempts),
{
    let new_attempt = attempt + 1;
    if new_attempt < max_attempts {
        let mut b: i64 = 1;
        let mut k: i64 = 0;
        while k < attempt
            invariant
                0 <= k <= attempt <= 47,
                b == pow2(k as nat),
                b <= 0x8000_0000_0000,
            decreases attempt - k,
        {
            proof {
                assert(pow2((k + 1) as nat) == 2 * pow2(k as nat));
                lemma_pow2_mono(k as nat, 47);
            }
            b = b * 2;
            k = k + 1;
            proof { lemma_pow2_mono(k as nat, 47); }
        }
        FailureOutcome::Retry { attempt: new_attempt, backoff_minutes: b }
    } else {
        FailureOutcome::GiveUp { attempt: new_attempt }
    }
}

proof fn lemma_pow2_mono(a: nat, b: nat)
    requires
        a <= b,
    ensures
        pow2(a) <= pow2(b),
        pow2(47) == 0x8000_0000_0000,
    decreases b,
{
    reveal_with_fuel(pow2, 48);
    if a < b {
        lemma_pow2_mono(a, (b - 1) as nat);
    }
}

// ---------------------------------------------------------------------------
// Retention of finished tasks
// ---------------------------------------------------------------------------

/// Completed and cancelled tasks are the history that retention may prune.
pub open spec fn prunable_status(s: TaskStatus) -> bool {
    s == TaskStatus::Completed || s == TaskStatus::Cancelled
}

/// Newer in history order: later creation, then larger id.
pub open spec fn newer(a: Task, b: Task) -> bool {
    a.created_at > b.created_at || (a.created_at == b.created_at && a.id > b.id)
}

/// How many prunable tasks are newer than task `i`.
pub open spec fn newer_count(tasks: Seq<Task>, i: int, n: int) -> nat
    decreases n,
{
    if n <= 0 {
        0
    } else {
        newer_count(tasks, i, n - 1) + if prunable_status(tasks[n - 1].status) && newer(tasks[n - 1], tasks[i]) { 1nat } else { 0nat }
    }
}

/// Whether retention deletes task `i`: a completed or cancelled task created before
/// the cutoff that is not among the `min_keep` newest such tasks.
pub open spec fn pruned(tasks: Seq<Task>, i: int, cutoff: int, min_keep: nat) -> bool {
    &&& prunable_status(tasks[i].status)
    &&& tasks[i].created_at < cutoff
    &&& newer_count(tasks, i, tasks.len() as int) >= min_keep
}

/// Ids of the tasks that retention deletes, in the order of `tasks`.
pub open spec fn pruned_ids(tasks: Seq<Task>, cutoff: int, min_keep: nat, n: int) -> Seq<u128>
    decreases n,
{
    if n <= 0 {
        Seq::empty()
    } else {
        let p = pruned_ids(tasks, cutoff, min_keep, n - 1);
        if pruned(tasks, n - 1, cutoff, min_keep) { p.push(tasks[n - 1].id) } else { p }
    }
}

/// The tasks that a retention run deletes (`min_keep` is capped at `i64::MAX`).
pub fn prune_candidates(tasks: &[Task], cutoff: i128, min_keep: u64) -> (r: Vec<u128>)
    ensures
        r@ == pruned_ids(tasks@, cutoff as int, if min_keep > i64::MAX as u64 { i64::MAX as nat } else { min_keep as nat }, tasks@.len() as int),
{
    let keep: u64 = if min_keep > i64::MAX as u64 { i64::MAX as u64 } else { min_keep };
    let mut r: Vec<u128> = Vec::new();
    let mut i: usize = 0;
    while i < tasks.len()
        invariant
            i <= tasks@.len(),
            keep == (if min_keep > i64::MAX as u64 { i64::MAX as u64 } else { min_keep }),
            r@ == pruned_ids(tasks@, cutoff as int, keep as nat, i as int),
        decreases tasks.len() - i,
    {
        let t = &tasks[i];
        let prunable = t.status == TaskStatus::Completed || t.status == TaskStatus::Cancelled;
        if prunable && t.created_at < cutoff {
            let mut count: u64 = 0;
            let mut j: usize = 0;
            let tc = t.created_at;
            let tid = t.id;
            while j < tasks.len()
                invariant
                    j <= tasks@.len(),
                    i < tasks@.len(),
                    tc == tasks@[i as int].created_at,
                    tid == tasks@[i as int].id,
                    count == newer_count(tasks@, i as int, j as int),
                    count <= j,
                decreases tasks.len() - j,
            {
                let u = &tasks[j];
                if (u.status == TaskStatus::Completed || u.status == TaskStatus::Cancelled) && (u.created_at > tc || (u.created_at == tc && u.id > tid)) {
                    count = count + 1;
                }
                j = j + 1;
            }
            if count >= keep {
                r.push(t.id);
            }
        }
        i = i + 1;
    }
    r
}

/// The newest `min_keep` completed or cancelled tasks always survive, and only
/// completed or cancelled tasks are ever pruned.
pub proof fn law_prune_keeps_newest(tasks: Seq<Task>, i: int, cutoff: int, min_keep: nat)
    requires
        0 <= i < tasks.len(),
        !prunable_status(tasks[i].status) || newer_count(tasks, i, tasks.len() as int) < min_keep,
    ensures
        !pruned(tasks, i, cutoff, min_keep),
{
}

/// Whether `t` is a completed or cancelled task newer than `u`.
pub open spec fn finished_newer_than(u: Task) -> spec_fn(Task) -> bool {
    |t: Task| (t.status == TaskStatus::Completed || t.status == TaskStatus::Cancelled)
        && (t.created_at > u.created_at || (t.created_at == u.created_at && t.id > u.id))
}

proof fn lemma_newer_count_is_filter(tasks: Seq<Task>, i: int, n: int)
    requires
        0 <= n <= tasks.len(),
    ensures
        newer_count(tasks, i, n) == tasks.take(n).filter(finished_newer_than(tasks[i])).len(),
    decreases n,
{
    let f = finished_newer_than(tasks[i]);
    if n == 0 {
        assert(tasks.take(0) =~= Seq::<Task>::empty());
        reveal_with_fuel(Seq::filter, 1);
    } else {
        lemma_newer_count_is_filter(tasks, i, n - 1);
        assert(tasks.take(n) =~= tasks.take(n - 1).push(tasks[n - 1]));
        tasks.take(n - 1).lemma_filter_push(tasks[n - 1], f);
    }
}

proof fn lemma_pruned_ids_from(tasks: Seq<Task>, cutoff: int, min_keep: nat, n: int, id: u128)
    requires
        n <= tasks.len(),
        pruned_ids(tasks, cutoff, min_keep, n).contains(id),
    ensures
        exists|j: int| 0 <= j < n && tasks[j].id == id && #[trigger] pruned(tasks, j, cutoff, min_keep),
    decreases n,
{
    if n > 0 {
        let p = pruned_ids(tasks, cutoff, min_keep, n - 1);
        if pruned(tasks, n - 1, cutoff, min_keep) && tasks[n - 1].id == id {
        } else {
            if pruned(tasks, n - 1, cutoff, min_keep) {
                let q = p.push(tasks[n - 1].id);
                let k = choose|k: int| 0 <= k < q.len() && #[trigger] q[k] == id;
                assert(k < p.len());
                assert(p[k] == id);
            }
            assert(p.contains(id));
            lemma_pruned_ids_from(tasks, cutoff, min_keep, n - 1, id);
        }
    }
}

/// Retention never deletes one of the `min_keep` newest completed or cancelled
/// tasks: a finished task with fewer than `min_keep` finished tasks newer than
/// it survives, however many pending, running or failed tasks are newer. Only
/// completed or cancelled tasks created before the cutoff are deleted, and
/// only those with at least `min_keep` finished tasks newer than them.
pub proof fn law_prune_counts_only_finished_tasks(tasks: Seq<Task>, cutoff: int, min_keep: nat, i: int)
    requires
        0 <= i < tasks.len(),
        forall|a: int, b: int| 0 <= a < b < tasks.len() ==> tasks[a].id != tasks[b].id,
    ensures
        tasks.filter(finished_newer_than(tasks[i])).len() < min_keep
            ==> !pruned_ids(tasks, cutoff, min_keep, tasks.len() as int).contains(tasks[i].id),
        pruned_ids(tasks, cutoff, min_keep, tasks.len() as int).contains(tasks[i].id) <==> (
            (tasks[i].status == TaskStatus::Completed || tasks[i].status == TaskStatus::Cancelled)
                && tasks[i].created_at < cutoff
                && tasks.filter(finished_newer_than(tasks[i])).len() >= min_keep),
{
    let n = tasks.len() as int;
    lemma_newer_count_is_filter(tasks, i, n);
    assert(tasks.take(n) =~= tasks);
    if pruned_ids(tasks, cutoff, min_keep, n).contains(tasks[i].id) {
        lemma_pruned_ids_from(tasks, cutoff, min_keep, n, tasks[i].id);
        let j = choose|j: int| 0 <= j < n && tasks[j].id == tasks[i].id && #[trigger] pruned(tasks, j, cutoff, min_keep);
        assert(j == i);
    }
    if pruned(tasks, i, cutoff, min_keep) {
        lemma_pruned_ids_contains(tasks, cutoff, min_keep, n, i);
    }
}

proof fn lemma_pruned_ids_contains(tasks: Seq<Task>, cutoff: int, min_keep: nat, n: int, i: int)
    requires
        0 <= i < n <= tasks.len(),
        pruned(tasks, i, cutoff, min_keep),
    ensures
        pruned_ids(tasks, cutoff, min_keep, n).contains(tasks[i].id),
    decreases n,
{
    let p = pruned_ids(tasks, cutoff, min_keep, n - 1);
    if i == n - 1 {
        assert(p.push(tasks[i].id)[p.len() as int] == tasks[i].id);
    } else {
        lemma_pruned_ids_contains(tasks, cutoff, min_keep, n - 1, i);
        let k = choose|k: int| 0 <= k < p.len() && p[k] == tasks[i].id;
        if pruned(tasks, n - 1, cutoff, min_keep) {
            assert(p.push(tasks[n - 1].id)[k] == tasks[i].id);
        }
    }
}

/// One day, in nanoseconds.
pub const NANOS_PER_DAY: i128 = 86_400_000_000_000;

/// How long finished tasks are kept.
#[derive(Debug, Clone, Copy, PartialEq, Eq, Structural)]
pub struct RetentionPolicy {
    pub enabled: bool,
    /// Finished tasks older than this many days may go.
    pub days: u64,
    /// This many of the newest finished tasks always stay.
    pub min_keep: u64,
}

impl RetentionPolicy {
    /// Tasks created before this time (nanoseconds) may go: `days` before now.
    pub fn cutoff(&self, now: i128) -> (r: i128)
        requires
            i128::MIN / 2 <= now <= i128::MAX / 2,
        ensures
            r == now - self.days * NANOS_PER_DAY,
    {
        now - (self.days as i128) * NANOS_PER_DAY
    }

    /// Whether the daily run is due: enabled, and a day or more since the last run.
    pub fn due(&self, last_run: Option<i128>, now: i128) -> (r: bool)
        requires
            last_run matches Some(ts) ==> i128::MIN / 2 <= ts <= i128::MAX / 2 && i128::MIN / 2 <= now <= i128::MAX / 2,
        ensures
            r == retention_due_spec(self.enabled, last_run, now),
    {
        retention_due(self.enabled, last_run, now)
    }
}

/// What a running task reports of its progress.
#[derive(Debug)]
pub struct TaskProgress {
    pub step: Option<String>,
    pub label: Option<String>,
    pub detail: Option<String>,
    pub provider: Option<String>,
    pub target: Option<String>,
    pub current: Option<i64>,
    pub total: Option<i64>,
    pub unit: Option<String>,
}

/// The query of a task listing.
#[derive(Debug)]
pub struct TaskListQuery {
    pub manga_id: Option<String>,
    pub limit: Option<i64>,
    pub before: Option<String>,
    pub status: Vec<String>,
}

/// A task's change of state, as pushed to listeners.
#[derive(Debug)]
pub struct TaskUpdate {
    pub id: String,
    pub task_type: String,
    pub status: String,
    pub manga_title: Option<String>,
    pub chapter_number_raw: Option<String>,
    pub last_error: Option<String>,
}

/// The daily retention run is due: retention is enabled and the last run, if any,
/// was at least a day ago.
pub open spec fn retention_due_spec(enabled: bool, last_run: Option<i128>, now: i128) -> bool {
    enabled && match last_run {
        Some(ts) => !(now - ts < NANOS_PER_DAY),
        None => true,
    }
}

/// Whether the daily retention run should happen now.
pub fn retention_due(enabled: bool, last_run: Option<i128>, now: i128) -> (r: bool)
    requires
        last_run matches Some(ts) ==> i128::MIN / 2 <= ts <= i128::MAX / 2 && i128::MIN / 2 <= now <= i128::MAX / 2,
    ensures
        r == retention_due_spec(enabled, last_run, now),
{
    if !enabled {
        return false;
    }
    match last_run {
        Some(ts) => !(now - ts < NANOS_PER_DAY),
        None => true,
    }
}

// ---------------------------------------------------------------------------
// Status filters
// ---------------------------------------------------------------------------

/// The pieces of `s` between commas.
pub open spec fn split_commas(s: Seq<char>) -> Seq<Seq<char>>
    decreases s.len(),
{
    if s.len() == 0 {
        seq![Seq::empty()]
    } else {
        let p = split_commas(s.drop_last());
        if s.last() == ',' {
            p.push(Seq::empty())
        } else {
            p.update(p.len() - 1, p.last().push(s.last()))
        }
    }
}

/// A status name accepted as a filter.
pub open spec fn is_status_name(s: Seq<char>) -> bool {
    s == "Pending"@ || s == "Running"@ || s == "Completed"@ || s == "Failed"@ || s == "Cancelled"@
}

/// Statuses named in one comma-separated value, trimmed, blanks skipped; `None` on an unknown name.
pub open spec fn statuses_of_pieces(pieces: Seq<Seq<char>>) -> Option<Seq<Seq<char>>>
    decreases pieces.len(),
{
    if pieces.len() == 0 {
        Some(Seq::empty())
    } else {
        match statuses_of_pieces(pieces.drop_last()) {
            None => None,
            Some(acc) => {
                let t = trim_seq(pieces.last());
                if t.len() == 0 {
                    Some(acc)
                } else if is_status_name(t) {
                    Some(acc.push(t))
                } else {
                    None
                }
            },
        }
    }
}

/// All statuses named in the values, in order; `None` when any piece names an unknown status.
pub open spec fn status_filters_spec(values: Seq<Seq<char>>) -> Option<Seq<Seq<char>>>
    decreases values.len(),
{
    if values.len() == 0 {
        Some(Seq::empty())
    } else {
        match status_filters_spec(values.drop_last()) {
            None => None,
            Some(acc) => match statuses_of_pieces(split_commas(values.last())) {
                None => None,
                Some(more) => Some(acc + more),
            },
        }
    }
}

fn split_commas_exec(s: &[char]) -> (r: Vec<Vec<char>>)
    ensures
        r@.map_values(|v: Vec<char>| v@) == split_commas(s@),
{
    let mut r: Vec<Vec<char>> = Vec::new();
    let mut cur: Vec<char> = Vec::new();
    let mut i: usize = 0;
    while i < s.len()
        invariant
            i <= s@.len(),
            r@.map_values(|v: Vec<char>| v@).push(cur@) == split_commas(s@.take(i as int)),
        decreases s.len() - i,
    {
        let ghost rv = r@.map_values(|v: Vec<char>| v@);
        assert(s@.take(i + 1).drop_last() =~= s@.take(i as int));
        assert(s@.take(i + 1).last() == s@[i as int]);
        if s[i] == ',' {
            let done = cur;
            r.push(done);
            cur = Vec::new();
            assert(r@.map_values(|v: Vec<char>| v@) =~= rv.push(done@));
            assert(r@.map_values(|v: Vec<char>| v@).push(cur@) =~= rv.push(done@).push(Seq::empty()));
        } else {
            let ghost old_cur = cur@;
            cur.push(s[i]);
            assert(r@.map_values(|v: Vec<char>| v@).push(cur@) =~= rv.push(old_cur).update(rv.len() as int, old_cur.push(s@[i as int])));
        }
        i = i + 1;
    }
    assert(s@.take(s@.len() as int) =~= s@);
    assert(s@.take(0) =~= Seq::<char>::empty());
    let ghost rv = r@.map_values(|v: Vec<char>| v@);
    let last = cur;
    r.push(last);
    assert(r@.map_values(|v: Vec<char>| v@) =~= rv.push(last@));
    r
}

fn is_status_name_exec(t: &[char]) -> (r: bool)
    ensures
        r == is_status_name(t@),
{
    let s = crate::text::string_of(t);
    str_eq(s.as_str(), "Pending") || str_eq(s.as_str(), "Running") || str_eq(s.as_str(), "Completed") || str_eq(s.as_str(), "Failed") || str_eq(s.as_str(), "Cancelled")
}

/// Reads the status filters of a task listing: each value may hold several
/// comma-separated names; blanks are skipped; an unknown name is the error
/// "invalid status filter".
pub fn parse_status_filters(values: &[String]) -> (r: Result<Vec<String>, ApiFailure>)
    ensures
        match status_filters_spec(values@.map_values(|v: String| v@)) {
            None => r matches Err(f) && is_failure(f, ApiStatus::BadRequest, "invalid status filter"@),
            Some(s) => r matches Ok(v) && v@.map_values(|v: String| v@) == s,
        },
{
    let ghost vv = values@.map_values(|v: String| v@);
    let mut result: Vec<String> = Vec::new();
    let mut i: usize = 0;
    while i < values.len()
        invariant
            i <= values@.len(),
            vv == values@.map_values(|v: String| v@),
            status_filters_spec(vv.take(i as int)) == Some(result@.map_values(|v: String| v@)),
        decreases values.len() - i,
    {
        assert(vv.take(i + 1).drop_last() =~= vv.take(i as int));
        assert(vv.take(i + 1).last() == values@[i as int]@);
        let cs = chars_of(values[i].as_str());
        let pieces = split_commas_exec(cs.as_slice());
        let ghost pv = pieces@.map_values(|v: Vec<char>| v@);
        let ghost acc0 = result@.map_values(|v: String| v@);
        let mut k: usize = 0;
        while k < pieces.len()
            invariant
                k <= pieces@.len(),
                i < vv.len(),
                vv == values@.map_values(|v: String| v@),
                pv == pieces@.map_values(|v: Vec<char>| v@),
                pv == split_commas(vv[i as int]),
                vv.take(i + 1).drop_last() == vv.take(i as int),
                vv.take(i + 1).last() == vv[i as int],
                status_filters_spec(vv.take(i as int)) == Some(acc0),
                statuses_of_pieces(pv.take(k as int)) matches Some(more) && result@.map_values(|v: String| v@) == acc0 + more,
            decreases pieces.len() - k,
        {
            assert(pv.take(k + 1).drop_last() =~= pv.take(k as int));
            assert(pv.take(k + 1).last() == pieces@[k as int]@);
            let t = trim_chars(pieces[k].as_slice());
            if t.len() > 0 {
                if is_status_name_exec(t.as_slice()) {
                    let ghost before = result@.map_values(|v: String| v@);
                    let st = crate::text::string_of(t.as_slice());
                    result.push(st);
                    assert(result@.map_values(|v: String| v@) =~= before.push(t@));
                } else {
                    proof {
                        assert(statuses_of_pieces(pv.take(k + 1)) is None);
                        assert(statuses_of_pieces(pv) is None) by {
                            lemma_pieces_none_extends(pv, k + 1);
                        }
                        assert(status_filters_spec(vv.take(i + 1)) is None);
                        lemma_filters_none_extends(vv, i + 1);
                        assert(vv.take(vv.len() as int) =~= vv);
                    }
                    return Err(bad_request("invalid status filter"));
                }
            }
            k = k + 1;
        }
        assert(pv.take(pv.len() as int) =~= pv);
        i = i + 1;
    }
    assert(vv.take(vv.len() as int) =~= vv);
    Ok(result)
}

proof fn lemma_pieces_none_extends(p: Seq<Seq<char>>, k: int)
    requires
        0 <= k <= p.len(),
        statuses_of_pieces(p.take(k)) is None,
    ensures
        statuses_of_pieces(p) is None,
    decreases p.len() - k,
{
    if k < p.len() {
        assert(p.take(k + 1).drop_last() =~= p.take(k));
        lemma_pieces_none_extends(p, k + 1);
    } else {
        assert(p.take(k) =~= p);
    }
}

proof fn lemma_filters_none_extends(v: Seq<Seq<char>>, k: int)
    requires
        0 <= k <= v.len(),
        status_filters_spec(v.take(k)) is None,
    ensures
        status_filters_spec(v.take(v.len() as int)) is None,
    decreases v.len() - k,
{
    if k < v.len() {
        assert(v.take(k + 1).drop_last() =~= v.take(k));
        lemma_filters_none_extends(v, k + 1);
    }
}

} // verus!
