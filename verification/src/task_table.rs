//! The task table the scheduler's workers take their work from: tasks are
//! enqueued pending, claimed in priority order, completed, failed with retries,
//! cancelled and promoted to the front of their queue; finished history is
//! pruned by the retention policy. Instants are nanoseconds since the Unix epoch.

use vstd::prelude::*;
use crate::ids::{contains_id, new_v4};
use crate::task::{
    claim_candidate, claim_choice_ok, claimable, claims_before, failure_outcome, failure_outcome_spec,
    front_priority_spec, lemma_min_pending_bounds, min_pending_priority, next_front_priority, pow2, prune_candidates,
    pruned_ids, retention_due, retention_due_spec, FailureOutcome, RetentionPolicy, Task, TaskStatus, TaskType,
    NANOS_PER_DAY,
};
use crate::text::{clone_opt, opt_view, str_eq, str_opt_view};

verus! {

/// No two tasks share an id.
pub open spec fn ids_distinct(ts: Seq<Task>) -> bool {
    forall|i: int, j: int| 0 <= i < j < ts.len() ==> ts[i].id != ts[j].id
}

/// Some task has the id.
pub open spec fn has_id(ts: Seq<Task>, id: u128) -> bool {
    exists|i: int| 0 <= i < ts.len() && ts[i].id == id
}

/// The queue a new task goes to: the one given, else the system queue that
/// every task type defaults to.
pub open spec fn queue_or_default(queue: Option<Seq<char>>) -> Seq<char> {
    match queue {
        Some(q) => q,
        None => "system"@,
    }
}

/// `t` is a new pending task as described, due at once, with three attempts.
pub open spec fn new_task_ok(
    t: Task,
    id: u128,
    task_type: TaskType,
    library_id: Option<u128>,
    manga_id: Option<u128>,
    chapter_id: Option<u128>,
    priority: i64,
    queue: Seq<char>,
    payload: Option<Seq<char>>,
    now: i128,
) -> bool {
    &&& t.id == id
    &&& t.task_type == task_type
    &&& t.status == TaskStatus::Pending
    &&& t.queue@ == queue
    &&& t.library_id == library_id
    &&& t.manga_id == manga_id
    &&& t.chapter_id == chapter_id
    &&& t.priority == priority
    &&& opt_view(t.payload) == payload
    &&& t.attempt == 0
    &&& t.max_attempts == 3
    &&& t.last_error is None
    &&& t.created_at == now
    &&& t.updated_at == now
    &&& t.run_after == now
}

/// What an enqueue did: `Ok` with an id, the table gained that new task at its
/// end (no task had the id before); `Err` with the id drawn for it, a stored
/// task already had that id and nothing changed.
pub open spec fn enqueue_result(
    before: Seq<Task>,
    after: Seq<Task>,
    r: Result<u128, u128>,
    task_type: TaskType,
    library_id: Option<u128>,
    manga_id: Option<u128>,
    chapter_id: Option<u128>,
    priority: i64,
    queue: Seq<char>,
    payload: Option<Seq<char>>,
    now: i128,
) -> bool {
    match r {
        Ok(id) => {
            &&& !has_id(before, id)
            &&& after.len() == before.len() + 1
            &&& after.drop_last() == before
            &&& new_task_ok(after.last(), id, task_type, library_id, manga_id, chapter_id, priority, queue, payload, now)
        },
        Err(id) => has_id(before, id) && after == before,
    }
}

/// `t` moved to `status` at `now`.
pub open spec fn with_status(t: Task, status: TaskStatus, now: i128) -> Task {
    Task { status, updated_at: now, ..t }
}

/// Pending or running: not finished yet.
pub open spec fn is_active(s: TaskStatus) -> bool {
    s == TaskStatus::Pending || s == TaskStatus::Running
}

/// What a claim did: the task it returns is the one the claim order picks, as
/// it was, and that task is now running; with nothing to claim, nothing changed.
pub open spec fn claim_result(before: Seq<Task>, after: Seq<Task>, queue: Option<Seq<char>>, now: i128, r: Option<Task>) -> bool {
    match r {
        Some(t) => exists|i: usize|
            claim_choice_ok(before, queue, now as int, Some(i)) && t == before[i as int]
                && after == before.update(i as int, with_status(before[i as int], TaskStatus::Running, now)),
        None => claim_choice_ok(before, queue, now as int, None) && after == before,
    }
}

/// Nanoseconds in a minute.
pub const NANOS_PER_MINUTE: i128 = 60_000_000_000;

/// Task `b` is task `a` after a failure with outcome `o` at `now`: the error
/// recorded, the attempt counted, and either pending again after the backoff or
/// failed for good.
pub open spec fn failed_row(a: Task, b: Task, o: FailureOutcome, error: Seq<char>, now: i128) -> bool {
    &&& opt_view(b.last_error) == Some(error)
    &&& match o {
        FailureOutcome::Retry { attempt, backoff_minutes } => b == Task {
            status: TaskStatus::Pending,
            attempt,
            run_after: (now + backoff_minutes * NANOS_PER_MINUTE) as i128,
            updated_at: now,
            last_error: b.last_error,
            ..a
        },
        FailureOutcome::GiveUp { attempt } => b == Task {
            status: TaskStatus::Failed,
            attempt,
            updated_at: now,
            last_error: b.last_error,
            ..a
        },
    }
}

/// `after` is `before` with the task cancelled at `now` if it was pending or
/// running; every other task, and a finished one, as it was.
pub open spec fn cancelled_rel(before: Seq<Task>, after: Seq<Task>, id: u128, now: i128) -> bool {
    &&& after.len() == before.len()
    &&& forall|i: int| 0 <= i < before.len() ==> #[trigger] after[i] == if before[i].id == id && is_active(before[i].status) {
        with_status(before[i], TaskStatus::Cancelled, now)
    } else {
        before[i]
    }
}

/// The outcome of a retention run: how many tasks went, and the instant
/// before which finished tasks could go.
#[derive(Debug, Clone, Copy)]
pub struct RetentionRun {
    pub deleted_count: u64,
    pub cutoff: i128,
}

/// Tasks whose id is not among `gone`.
pub open spec fn not_among(gone: Seq<u128>) -> spec_fn(Task) -> bool {
    |t: Task| !gone.contains(t.id)
}

/// The number of newest finished tasks kept, capped at `i64::MAX`.
pub open spec fn keep_floor(min_keep: u64) -> nat {
    if min_keep > i64::MAX as u64 {
        i64::MAX as nat
    } else {
        min_keep as nat
    }
}

/// `after` is `before` pruned as a run with `days` and `min_keep` at `now`
/// prunes it, and `run` reports it: the completed or cancelled tasks created
/// before the cutoff and not among the `min_keep` newest such tasks are gone.
pub open spec fn pruned_table(before: Seq<Task>, after: Seq<Task>, run: RetentionRun, days: u64, min_keep: u64, now: i128) -> bool {
    &&& run.cutoff == now - days * NANOS_PER_DAY
    &&& after == before.filter(not_among(pruned_ids(before, run.cutoff as int, keep_floor(min_keep), before.len() as int)))
    &&& run.deleted_count == before.len() - after.len()
}

/// A pending download of the chapter.
pub open spec fn pending_download(t: Task, chapter_id: u128) -> bool {
    t.status == TaskStatus::Pending && t.task_type == TaskType::DownloadChapter && t.chapter_id == Some(chapter_id)
}

/// The pending download of the chapter that comes first in claim order (the
/// first such in the table among equals); none when there is none.
pub open spec fn download_choice_ok(ts: Seq<Task>, chapter_id: u128, r: Option<usize>) -> bool {
    match r {
        None => forall|j: int| 0 <= j < ts.len() ==> !pending_download(#[trigger] ts[j], chapter_id),
        Some(i) => {
            &&& i < ts.len()
            &&& pending_download(ts[i as int], chapter_id)
            &&& forall|j: int| 0 <= j < ts.len() && pending_download(#[trigger] ts[j], chapter_id) ==> !claims_before(ts[j], ts[i as int])
            &&& forall|j: int| 0 <= j < i && pending_download(#[trigger] ts[j], chapter_id) ==> claims_before(ts[i as int], ts[j])
        },
    }
}

/// Task `i` moved to the front of its queue at `now`.
pub open spec fn promoted_task(ts: Seq<Task>, i: int, now: i128) -> Task {
    Task { priority: front_priority_spec(ts, ts[i].queue@) as i64, updated_at: now, ..ts[i] }
}

/// Ids of the first `n` tasks that satisfy `p`, in order.
pub open spec fn ids_where(ts: Seq<Task>, p: spec_fn(Task) -> bool, n: int) -> Seq<u128>
    decreases n,
{
    if n <= 0 {
        Seq::empty()
    } else {
        let prev = ids_where(ts, p, n - 1);
        if p(ts[n - 1]) {
            prev.push(ts[n - 1].id)
        } else {
            prev
        }
    }
}

/// Pending or running downloads of the chapter.
pub open spec fn cancellable_download(chapter_id: u128) -> spec_fn(Task) -> bool {
    |t: Task| t.chapter_id == Some(chapter_id) && t.task_type == TaskType::DownloadChapter && is_active(t.status)
}

/// Running downloads of the chapter.
pub open spec fn running_download(chapter_id: u128) -> spec_fn(Task) -> bool {
    |t: Task| t.chapter_id == Some(chapter_id) && t.task_type == TaskType::DownloadChapter && t.status == TaskStatus::Running
}

/// Running tasks.
pub open spec fn running() -> spec_fn(Task) -> bool {
    |t: Task| t.status == TaskStatus::Running
}

proof fn lemma_backoff_bound(attempt: i64)
    requires
        0 <= attempt <= 47,
    ensures
        pow2(attempt as nat) <= 0x8000_0000_0000,
    decreases attempt,
{
    reveal_with_fuel(pow2, 48);
    if attempt < 47 {
        lemma_pow2_step_bound(attempt as nat, 47);
    }
}

proof fn lemma_pow2_step_bound(a: nat, b: nat)
    requires
        a <= b,
    ensures
        pow2(a) <= pow2(b),
    decreases b,
{
    if a < b {
        lemma_pow2_step_bound(a, (b - 1) as nat);
    }
}

proof fn lemma_front_priority_fits(ts: Seq<Task>, q: Seq<char>)
    ensures
        i64::MIN <= front_priority_spec(ts, q) <= i64::MAX,
    decreases ts.len(),
{
    lemma_min_pending_in_range(ts, q);
}

proof fn lemma_min_pending_in_range(ts: Seq<Task>, q: Seq<char>)
    ensures
        min_pending_priority(ts, q) matches Some(p) ==> i64::MIN <= p <= i64::MAX,
    decreases ts.len(),
{
    if ts.len() > 0 {
        lemma_min_pending_in_range(ts.drop_last(), q);
    }
}

/// The stored tasks.
pub struct TaskTable {
    tasks: Vec<Task>,
}

/// A copy of a task.
pub fn copy_task(t: &Task) -> (r: Task)
    ensures
        r == *t,
{
    Task {
        id: t.id,
        task_type: t.task_type,
        status: t.status,
        queue: t.queue.clone(),
        library_id: t.library_id,
        manga_id: t.manga_id,
        chapter_id: t.chapter_id,
        priority: t.priority,
        payload: clone_opt(&t.payload),
        attempt: t.attempt,
        max_attempts: t.max_attempts,
        last_error: clone_opt(&t.last_error),
        created_at: t.created_at,
        updated_at: t.updated_at,
        run_after: t.run_after,
    }
}

fn opt_string(o: Option<&str>) -> (r: Option<String>)
    ensures
        opt_view(r) == str_opt_view(o),
{
    match o {
        Some(s) => Some(s.to_owned()),
        None => None,
    }
}

impl TaskTable {
    /// The tasks, in the order they were stored.
    pub closed spec fn view(&self) -> Seq<Task> {
        self.tasks@
    }

    /// Well-formed: every task has its own id.
    pub open spec fn wf(&self) -> bool {
        ids_distinct(self.view())
    }

    /// No tasks.
    pub fn new() -> (r: Self)
        ensures
            r.wf(),
            r.view() == Seq::<Task>::empty(),
    {
        TaskTable { tasks: Vec::new() }
    }

    /// A table holding the given tasks; none when two of them share an id.
    pub fn from_rows(tasks: Vec<Task>) -> (r: Option<Self>)
        ensures
            match r {
                Some(t) => t.wf() && t.view() == tasks@,
                None => !ids_distinct(tasks@),
            },
    {
        let mut i: usize = 0;
        while i < tasks.len()
            invariant
                i <= tasks@.len(),
                forall|a: int, b: int| 0 <= a < b < i ==> tasks@[a].id != tasks@[b].id,
            decreases tasks.len() - i,
        {
            let mut j: usize = 0;
            while j < i
                invariant
                    j <= i < tasks@.len(),
                    forall|a: int| 0 <= a < j ==> tasks@[a].id != tasks@[i as int].id,
                decreases i - j,
            {
                if tasks[j].id == tasks[i].id {
                    return None;
                }
                j = j + 1;
            }
            i = i + 1;
        }
        Some(TaskTable { tasks })
    }

    /// The tasks, in the order they were stored.
    pub fn rows(&self) -> (r: &[Task])
        ensures
            r@ == self.view(),
    {
        self.tasks.as_slice()
    }

    fn position(&self, id: u128) -> (r: Option<usize>)
        ensures
            match r {
                Some(i) => i < self.view().len() && self.view()[i as int].id == id,
                None => !has_id(self.view(), id),
            },
    {
        let mut i: usize = 0;
        while i < self.tasks.len()
            invariant
                i <= self.tasks@.len(),
                forall|j: int| 0 <= j < i ==> self.tasks@[j].id != id,
            decreases self.tasks.len() - i,
        {
            if self.tasks[i].id == id {
                return Some(i);
            }
            i = i + 1;
        }
        None
    }

    /// The task with the id, if any.
    pub fn get_by_id(&self, id: u128) -> (r: Option<&Task>)
        ensures
            match r {
                Some(t) => t.id == id && self.view().contains(*t),
                None => !has_id(self.view(), id),
            },
    {
        match self.position(id) {
            Some(i) => Some(&self.tasks[i]),
            None => None,
        }
    }

    fn set_at(&mut self, i: usize, t: Task)
        requires
            old(self).wf(),
            i < old(self).view().len(),
            t.id == old(self).view()[i as int].id,
        ensures
            final(self).wf(),
            final(self).view() == old(self).view().update(i as int, t),
    {
        let ghost before = self.tasks@;
        self.tasks.set(i, t);
        proof {
            assert forall|a: int, b: int| 0 <= a < b < self.tasks@.len() implies self.tasks@[a].id != self.tasks@[b].id by {
                assert(self.tasks@[a].id == before[a].id);
                assert(self.tasks@[b].id == before[b].id);
            }
        }
    }

    fn claim(&mut self, queue: Option<&str>, now: i128) -> (r: Option<Task>)
        requires
            old(self).wf(),
        ensures
            final(self).wf(),
            claim_result(old(self).view(), final(self).view(), str_opt_view(queue), now, r),
    {
        match claim_candidate(self.tasks.as_slice(), queue, now) {
            Some(i) => {
                let t = copy_task(&self.tasks[i]);
                let mut u = copy_task(&self.tasks[i]);
                u.status = TaskStatus::Running;
                u.updated_at = now;
                self.set_at(i, u);
                Some(t)
            },
            None => None,
        }
    }

    /// Claims the next task of `queue`: of its pending tasks that are due, the
    /// one with the smallest priority value, the oldest among equals. The task
    /// is returned as it was, and is running from now on.
    pub fn claim_next_for_queue(&mut self, queue: &str, now: i128) -> (r: Option<Task>)
        requires
            old(self).wf(),
        ensures
            final(self).wf(),
            claim_result(old(self).view(), final(self).view(), Some(queue@), now, r),
    {
        self.claim(Some(queue), now)
    }

    /// Claims the next task of any queue, as `claim_next_for_queue` does.
    pub fn claim_next(&mut self, now: i128) -> (r: Option<Task>)
        requires
            old(self).wf(),
        ensures
            final(self).wf(),
            claim_result(old(self).view(), final(self).view(), None, now, r),
    {
        self.claim(None, now)
    }

    /// Marks the task completed, whatever its state.
    pub fn complete(&mut self, id: u128, now: i128)
        requires
            old(self).wf(),
        ensures
            final(self).wf(),
            final(self).view().len() == old(self).view().len(),
            forall|i: int| 0 <= i < old(self).view().len() ==> #[trigger] final(self).view()[i] == if old(self).view()[i].id == id {
                with_status(old(self).view()[i], TaskStatus::Completed, now)
            } else {
                old(self).view()[i]
            },
    {
        if let Some(p) = self.position(id) {
            let mut u = copy_task(&self.tasks[p]);
            u.status = TaskStatus::Completed;
            u.updated_at = now;
            self.set_at(p, u);
        }
    }

    /// Cancels the task when it is pending or running; a finished task stays as it is.
    pub fn cancel(&mut self, id: u128, now: i128)
        requires
            old(self).wf(),
        ensures
            final(self).wf(),
            cancelled_rel(old(self).view(), final(self).view(), id, now),
    {
        if let Some(p) = self.position(id) {
            if self.tasks[p].status == TaskStatus::Pending || self.tasks[p].status == TaskStatus::Running {
                let mut u = copy_task(&self.tasks[p]);
                u.status = TaskStatus::Cancelled;
                u.updated_at = now;
                self.set_at(p, u);
            }
        }
    }

    /// Cancels every pending or running download of the chapter, and returns
    /// their ids in table order.
    pub fn cancel_by_chapter(&mut self, chapter_id: u128, now: i128) -> (r: Vec<u128>)
        requires
            old(self).wf(),
        ensures
            final(self).wf(),
            r@ == ids_where(old(self).view(), cancellable_download(chapter_id), old(self).view().len() as int),
            final(self).view().len() == old(self).view().len(),
            forall|i: int| 0 <= i < old(self).view().len() ==> #[trigger] final(self).view()[i] == if cancellable_download(chapter_id)(
                old(self).view()[i],
            ) {
                with_status(old(self).view()[i], TaskStatus::Cancelled, now)
            } else {
                old(self).view()[i]
            },
    {
        let ghost before = self.tasks@;
        let mut r: Vec<u128> = Vec::new();
        let mut i: usize = 0;
        while i < self.tasks.len()
            invariant
                self.wf(),
                i <= self.tasks@.len(),
                self.tasks@.len() == before.len(),
                r@ == ids_where(before, cancellable_download(chapter_id), i as int),
                forall|j: int| 0 <= j < i ==> #[trigger] self.tasks@[j] == if cancellable_download(chapter_id)(before[j]) {
                    with_status(before[j], TaskStatus::Cancelled, now)
                } else {
                    before[j]
                },
                forall|j: int| i <= j < before.len() ==> #[trigger] self.tasks@[j] == before[j],
            decreases self.tasks.len() - i,
        {
            let t = &self.tasks[i];
            if t.chapter_id == Some(chapter_id) && t.task_type == TaskType::DownloadChapter
                && (t.status == TaskStatus::Pending || t.status == TaskStatus::Running) {
                r.push(t.id);
                let mut u = copy_task(t);
                u.status = TaskStatus::Cancelled;
                u.updated_at = now;
                self.set_at(i, u);
            }
            i = i + 1;
        }
        r
    }

    /// Records a failure of the task at `now`: retried after `2^attempt` minutes
    /// while attempts remain, failed for good otherwise. Returns what became of
    /// it; none when no task has the id.
    pub fn fail(&mut self, id: u128, error: &str, now: i128) -> (r: Option<FailureOutcome>)
        requires
            old(self).wf(),
            i128::MIN / 2 <= now <= i128::MAX / 2,
            forall|i: int| 0 <= i < old(self).view().len() && (#[trigger] old(self).view()[i]).id == id ==> {
                &&& old(self).view()[i].attempt < i64::MAX
                &&& old(self).view()[i].attempt + 1 < old(self).view()[i].max_attempts ==> 0 <= old(self).view()[i].attempt <= 47
            },
        ensures
            final(self).wf(),
            match r {
                None => !has_id(old(self).view(), id) && final(self).view() == old(self).view(),
                Some(o) => exists|i: int|
                    0 <= i < old(self).view().len() && #[trigger] old(self).view()[i].id == id
                        && o == failure_outcome_spec(old(self).view()[i].attempt, old(self).view()[i].max_attempts)
                        && final(self).view().len() == old(self).view().len()
                        && (forall|j: int| 0 <= j < old(self).view().len() && j != i ==> final(self).view()[j] == old(self).view()[j])
                        && failed_row(old(self).view()[i], final(self).view()[i], o, error@, now),
            },
    {
        let p = match self.position(id) {
            Some(p) => p,
            None => return None,
        };
        let ghost before = self.tasks@;
        let t = &self.tasks[p];
        assert(before[p as int].id == id);
        let o = failure_outcome(t.attempt, t.max_attempts);
        let mut u = copy_task(t);
        u.last_error = Some(error.to_owned());
        u.updated_at = now;
        match o {
            FailureOutcome::Retry { attempt, backoff_minutes } => {
                proof {
                    lemma_backoff_bound(t.attempt);
                }
                u.status = TaskStatus::Pending;
                u.attempt = attempt;
                u.run_after = now + (backoff_minutes as i128) * NANOS_PER_MINUTE;
            },
            FailureOutcome::GiveUp { attempt } => {
                u.status = TaskStatus::Failed;
                u.attempt = attempt;
            },
        }
        self.set_at(p, u);
        Some(o)
    }

    /// Replaces the task's payload with a progress report.
    pub fn set_progress(&mut self, id: u128, payload: &str, now: i128)
        requires
            old(self).wf(),
        ensures
            final(self).wf(),
            final(self).view().len() == old(self).view().len(),
            forall|i: int| 0 <= i < old(self).view().len() ==> if old(self).view()[i].id == id {
                &&& #[trigger] final(self).view()[i] == Task { payload: final(self).view()[i].payload, updated_at: now, ..old(self).view()[i] }
                &&& opt_view(final(self).view()[i].payload) == Some(payload@)
            } else {
                final(self).view()[i] == old(self).view()[i]
            },
    {
        if let Some(p) = self.position(id) {
            let mut u = copy_task(&self.tasks[p]);
            u.payload = Some(payload.to_owned());
            u.updated_at = now;
            self.set_at(p, u);
        }
    }

    /// Puts every running task back to pending, due at once (after a restart,
    /// nothing is running any more). Returns how many there were.
    pub fn reset_running_tasks(&mut self, now: i128) -> (r: usize)
        requires
            old(self).wf(),
        ensures
            final(self).wf(),
            r == ids_where(old(self).view(), running(), old(self).view().len() as int).len(),
            final(self).view().len() == old(self).view().len(),
            forall|i: int| 0 <= i < old(self).view().len() ==> #[trigger] final(self).view()[i] == if old(self).view()[i].status
                == TaskStatus::Running {
                Task { status: TaskStatus::Pending, run_after: now, updated_at: now, ..old(self).view()[i] }
            } else {
                old(self).view()[i]
            },
            forall|i: int| 0 <= i < final(self).view().len() ==> (#[trigger] final(self).view()[i]).status != TaskStatus::Running,
    {
        let ghost before = self.tasks@;
        let mut count: usize = 0;
        let mut i: usize = 0;
        while i < self.tasks.len()
            invariant
                self.wf(),
                i <= self.tasks@.len(),
                self.tasks@.len() == before.len(),
                count == ids_where(before, running(), i as int).len(),
                count <= i,
                forall|j: int| 0 <= j < i ==> #[trigger] self.tasks@[j] == if before[j].status == TaskStatus::Running {
                    Task { status: TaskStatus::Pending, run_after: now, updated_at: now, ..before[j] }
                } else {
                    before[j]
                },
                forall|j: int| i <= j < before.len() ==> #[trigger] self.tasks@[j] == before[j],
            decreases self.tasks.len() - i,
        {
            if self.tasks[i].status == TaskStatus::Running {
                let mut u = copy_task(&self.tasks[i]);
                u.status = TaskStatus::Pending;
                u.run_after = now;
                u.updated_at = now;
                self.set_at(i, u);
                count = count + 1;
            }
            i = i + 1;
        }
        count
    }

    /// Whether a pending or running task of the type exists for the series.
    pub fn is_pending_for_manga(&self, manga_id: u128, task_type: TaskType) -> (r: bool)
        ensures
            r == exists|i: int| 0 <= i < self.view().len() && (#[trigger] self.view()[i]).manga_id == Some(manga_id)
                && self.view()[i].task_type == task_type && is_active(self.view()[i].status),
    {
        let mut i: usize = 0;
        while i < self.tasks.len()
            invariant
                i <= self.tasks@.len(),
                forall|j: int| 0 <= j < i ==> !((#[trigger] self.tasks@[j]).manga_id == Some(manga_id)
                    && self.tasks@[j].task_type == task_type && is_active(self.tasks@[j].status)),
            decreases self.tasks.len() - i,
        {
            let t = &self.tasks[i];
            if t.manga_id == Some(manga_id) && t.task_type == task_type
                && (t.status == TaskStatus::Pending || t.status == TaskStatus::Running) {
                return true;
            }
            i = i + 1;
        }
        false
    }

    /// Whether a pending or running task of the type exists for the series on the queue.
    pub fn is_pending_in_queue(&self, queue: &str, manga_id: u128, task_type: TaskType) -> (r: bool)
        ensures
            r == exists|i: int| 0 <= i < self.view().len() && (#[trigger] self.view()[i]).queue@ == queue@
                && self.view()[i].manga_id == Some(manga_id) && self.view()[i].task_type == task_type
                && is_active(self.view()[i].status),
    {
        let mut i: usize = 0;
        while i < self.tasks.len()
            invariant
                i <= self.tasks@.len(),
                forall|j: int| 0 <= j < i ==> !((#[trigger] self.tasks@[j]).queue@ == queue@
                    && self.tasks@[j].manga_id == Some(manga_id) && self.tasks@[j].task_type == task_type
                    && is_active(self.tasks@[j].status)),
            decreases self.tasks.len() - i,
        {
            let t = &self.tasks[i];
            if t.manga_id == Some(manga_id) && t.task_type == task_type
                && (t.status == TaskStatus::Pending || t.status == TaskStatus::Running)
                && str_eq(t.queue.as_str(), queue) {
                return true;
            }
            i = i + 1;
        }
        false
    }

    /// Whether a pending or running task of the type exists for the library.
    pub fn is_pending_for_library(&self, library_id: u128, task_type: TaskType) -> (r: bool)
        ensures
            r == exists|i: int| 0 <= i < self.view().len() && (#[trigger] self.view()[i]).library_id == Some(library_id)
                && self.view()[i].task_type == task_type && is_active(self.view()[i].status),
    {
        let mut i: usize = 0;
        while i < self.tasks.len()
            invariant
                i <= self.tasks@.len(),
                forall|j: int| 0 <= j < i ==> !((#[trigger] self.tasks@[j]).library_id == Some(library_id)
                    && self.tasks@[j].task_type == task_type && is_active(self.tasks@[j].status)),
            decreases self.tasks.len() - i,
        {
            let t = &self.tasks[i];
            if t.library_id == Some(library_id) && t.task_type == task_type
                && (t.status == TaskStatus::Pending || t.status == TaskStatus::Running) {
                return true;
            }
            i = i + 1;
        }
        false
    }

    /// Ids of the running downloads of the chapter, in table order.
    pub fn get_running_for_chapter(&self, chapter_id: u128) -> (r: Vec<u128>)
        ensures
            r@ == ids_where(self.view(), running_download(chapter_id), self.view().len() as int),
    {
        let mut r: Vec<u128> = Vec::new();
        let mut i: usize = 0;
        while i < self.tasks.len()
            invariant
                i <= self.tasks@.len(),
                r@ == ids_where(self.tasks@, running_download(chapter_id), i as int),
            decreases self.tasks.len() - i,
        {
            let t = &self.tasks[i];
            if t.chapter_id == Some(chapter_id) && t.task_type == TaskType::DownloadChapter
                && t.status == TaskStatus::Running {
                r.push(t.id);
            }
            i = i + 1;
        }
        r
    }

    /// Moves a pending task to the front of its queue: its priority becomes
    /// one below the smallest pending priority there. Returns whether a
    /// pending task had the id; nothing changes otherwise.
    pub fn prioritise_task(&mut self, id: u128, now: i128) -> (changed: bool)
        requires
            old(self).wf(),
        ensures
            final(self).wf(),
            changed == exists|i: int| 0 <= i < old(self).view().len() && (#[trigger] old(self).view()[i]).id == id
                && old(self).view()[i].status == TaskStatus::Pending,
            changed ==> exists|i: int| 0 <= i < old(self).view().len() && (#[trigger] old(self).view()[i]).id == id
                && final(self).view() == old(self).view().update(i, promoted_task(old(self).view(), i, now)),
            !changed ==> final(self).view() == old(self).view(),
    {
        let p = match self.position(id) {
            Some(p) => p,
            None => return false,
        };
        if self.tasks[p].status != TaskStatus::Pending {
            assert forall|i: int| 0 <= i < self.tasks@.len() && (#[trigger] self.tasks@[i]).id == id implies self.tasks@[i].status
                != TaskStatus::Pending by {
                assert(i == p);
            }
            return false;
        }
        let priority = next_front_priority(self.tasks.as_slice(), self.tasks[p].queue.as_str());
        let mut u = copy_task(&self.tasks[p]);
        u.priority = priority;
        u.updated_at = now;
        proof {
            lemma_front_priority_fits(self.tasks@, self.tasks@[p as int].queue@);
        }
        self.set_at(p, u);
        true
    }

    /// Moves the chapter's pending download that comes first in claim order to
    /// the front of its queue. Returns whether there was one.
    pub fn prioritise_pending_download_for_chapter(&mut self, chapter_id: u128, now: i128) -> (changed: bool)
        requires
            old(self).wf(),
        ensures
            final(self).wf(),
            changed == exists|j: int| 0 <= j < old(self).view().len() && pending_download(#[trigger] old(self).view()[j], chapter_id),
            changed ==> exists|i: usize| download_choice_ok(old(self).view(), chapter_id, Some(i))
                && final(self).view() == old(self).view().update(i as int, promoted_task(old(self).view(), i as int, now)),
            !changed ==> final(self).view() == old(self).view(),
    {
        let ghost ts = self.tasks@;
        let mut best: Option<usize> = None;
        let mut i: usize = 0;
        while i < self.tasks.len()
            invariant
                i <= ts.len(),
                ts == self.tasks@,
                download_choice_ok(ts.take(i as int), chapter_id, best),
            decreases self.tasks.len() - i,
        {
            let t = &self.tasks[i];
            let ghost pre = ts.take(i as int);
            let ghost post = ts.take(i + 1);
            assert(post =~= pre.push(ts[i as int]));
            if t.status == TaskStatus::Pending && t.task_type == TaskType::DownloadChapter && t.chapter_id == Some(chapter_id) {
                match best {
                    None => {
                        best = Some(i);
                    },
                    Some(b) => {
                        let tb = &self.tasks[b];
                        if t.priority < tb.priority || (t.priority == tb.priority && t.created_at < tb.created_at) {
                            best = Some(i);
                        }
                    },
                }
            }
            proof {
                assert forall|j: int| 0 <= j < i implies post[j] == pre[j] by {}
            }
            i = i + 1;
        }
        assert(ts.take(ts.len() as int) =~= ts);
        match best {
            None => false,
            Some(b) => {
                let id = self.tasks[b].id;
                let changed = self.prioritise_task(id, now);
                proof {
                    assert(ts[b as int].id == id && ts[b as int].status == TaskStatus::Pending);
                    let k = choose|k: int| 0 <= k < ts.len() && (#[trigger] ts[k]).id == id
                        && self.view() == ts.update(k, promoted_task(ts, k, now));
                    assert(k == b);
                }
                changed
            },
        }
    }

    /// Deletes the completed and cancelled tasks created more than `days`
    /// before `now`, except the `min_keep` newest completed or cancelled tasks.
    pub fn prune_terminal_history(&mut self, days: u64, min_keep: u64, now: i128) -> (r: RetentionRun)
        requires
            old(self).wf(),
            i128::MIN / 2 <= now <= i128::MAX / 2,
        ensures
            final(self).wf(),
            pruned_table(old(self).view(), final(self).view(), r, days, min_keep, now),
    {
        let cutoff = now - (days as i128) * NANOS_PER_DAY;
        let gone = prune_candidates(self.tasks.as_slice(), cutoff, min_keep);
        let ghost before = self.tasks@;
        let ghost pred = not_among(gone@);
        let mut kept: Vec<Task> = Vec::new();
        let mut i: usize = 0;
        while i < self.tasks.len()
            invariant
                i <= before.len(),
                self.tasks@ == before,
                ids_distinct(before),
                pred == not_among(gone@),
                kept@ == before.take(i as int).filter(pred),
                ids_distinct(kept@),
                forall|k: int| 0 <= k < kept@.len() ==> exists|j: int| 0 <= j < i && (#[trigger] kept@[k]).id == before[j].id,
            decreases self.tasks.len() - i,
        {
            let t = &self.tasks[i];
            proof {
                before.take(i as int).lemma_filter_push(before[i as int], pred);
                assert(before.take(i + 1) =~= before.take(i as int).push(before[i as int]));
            }
            if !contains_id(&gone, t.id) {
                let ghost prev = kept@;
                kept.push(copy_task(t));
                proof {
                    assert forall|a: int, b: int| 0 <= a < b < kept@.len() implies kept@[a].id != kept@[b].id by {
                        if b == prev.len() {
                            let j = choose|j: int| 0 <= j < i && (#[trigger] prev[a]).id == before[j].id;
                            assert(kept@[a] == prev[a]);
                        }
                    }
                    assert forall|k: int| 0 <= k < kept@.len() implies exists|j: int| 0 <= j < i + 1 && (#[trigger] kept@[k]).id == before[j].id by {
                        if k < prev.len() {
                            assert(kept@[k] == prev[k]);
                        } else {
                            assert(kept@[k].id == before[i as int].id);
                        }
                    }
                }
            }
            i = i + 1;
        }
        proof {
            assert(before.take(before.len() as int) =~= before);
            before.lemma_filter_len(pred);
        }
        let deleted = self.tasks.len() - kept.len();
        self.tasks = kept;
        RetentionRun { deleted_count: deleted as u64, cutoff }
    }

    /// The daily retention run: when the policy is enabled and the last run,
    /// if any, was a day or more before `now`, prunes as the policy says,
    /// records `now` as the last run and reports the run; otherwise changes
    /// nothing.
    pub fn maybe_run_daily_retention(&mut self, policy: RetentionPolicy, last_run: &mut Option<i128>, now: i128) -> (r: Option<RetentionRun>)
        requires
            old(self).wf(),
            i128::MIN / 2 <= now <= i128::MAX / 2,
            *old(last_run) matches Some(ts) ==> i128::MIN / 2 <= ts <= i128::MAX / 2,
        ensures
            final(self).wf(),
            match r {
                None => !retention_due_spec(policy.enabled, *old(last_run), now) && final(self).view() == old(self).view()
                    && *final(last_run) == *old(last_run),
                Some(run) => retention_due_spec(policy.enabled, *old(last_run), now)
                    && pruned_table(old(self).view(), final(self).view(), run, policy.days, policy.min_keep, now)
                    && *final(last_run) == Some(now),
            },
    {
        if !retention_due(policy.enabled, *last_run, now) {
            return None;
        }
        *last_run = Some(now);
        Some(self.prune_terminal_history(policy.days, policy.min_keep, now))
    }

    /// Stores a new pending task under `id`, unless a task has that id.
    fn enqueue_with_id(
        &mut self,
        id: u128,
        task_type: TaskType,
        library_id: Option<u128>,
        manga_id: Option<u128>,
        chapter_id: Option<u128>,
        priority: i64,
        queue: Option<&str>,
        payload: Option<&str>,
        now: i128,
    ) -> (added: bool)
        requires
            old(self).wf(),
        ensures
            final(self).wf(),
            added == !has_id(old(self).view(), id),
            enqueue_result(
                old(self).view(),
                final(self).view(),
                if added { Ok(id) } else { Err(id) },
                task_type,
                library_id,
                manga_id,
                chapter_id,
                priority,
                queue_or_default(str_opt_view(queue)),
                str_opt_view(payload),
                now,
            ),
    {
        if self.position(id).is_some() {
            return false;
        }
        let q = match queue {
            Some(q) => q.to_owned(),
            None => "system".to_owned(),
        };
        let t = Task {
            id,
            task_type,
            status: TaskStatus::Pending,
            queue: q,
            library_id,
            manga_id,
            chapter_id,
            priority,
            payload: opt_string(payload),
            attempt: 0,
            max_attempts: 3,
            last_error: None,
            created_at: now,
            updated_at: now,
            run_after: now,
        };
        let ghost before = self.tasks@;
        self.tasks.push(t);
        proof {
            assert(self.tasks@.drop_last() =~= before);
            assert forall|i: int, j: int| 0 <= i < j < self.tasks@.len() implies self.tasks@[i].id != self.tasks@[j].id by {
                if j == before.len() {
                    assert(self.tasks@[i] == before[i]);
                }
            }
        }
        true
    }

    /// Stores a new pending task under a fresh random id and returns the id;
    /// when a stored task already has the id drawn, nothing is stored and that
    /// id is the error.
    fn enqueue_full(
        &mut self,
        task_type: TaskType,
        library_id: Option<u128>,
        manga_id: Option<u128>,
        chapter_id: Option<u128>,
        priority: i64,
        queue: Option<&str>,
        payload: Option<&str>,
        now: i128,
    ) -> (r: Result<u128, u128>)
        requires
            old(self).wf(),
        ensures
            final(self).wf(),
            enqueue_result(
                old(self).view(),
                final(self).view(),
                r,
                task_type,
                library_id,
                manga_id,
                chapter_id,
                priority,
                queue_or_default(str_opt_view(queue)),
                str_opt_view(payload),
                now,
            ),
    {
        let id = new_v4();
        if self.enqueue_with_id(id, task_type, library_id, manga_id, chapter_id, priority, queue, payload, now) {
            Ok(id)
        } else {
            Err(id)
        }
    }

    /// A new pending task on the system queue.
    pub fn enqueue(
        &mut self,
        task_type: TaskType,
        manga_id: Option<u128>,
        chapter_id: Option<u128>,
        priority: i64,
        now: i128,
    ) -> (r: Result<u128, u128>)
        requires
            old(self).wf(),
        ensures
            final(self).wf(),
            enqueue_result(old(self).view(), final(self).view(), r, task_type, None, manga_id, chapter_id, priority, "system"@, None, now),
    {
        self.enqueue_full(task_type, None, manga_id, chapter_id, priority, None, None, now)
    }

    /// A new pending task on the given queue (the system queue when none).
    pub fn enqueue_with_queue(
        &mut self,
        task_type: TaskType,
        manga_id: Option<u128>,
        chapter_id: Option<u128>,
        priority: i64,
        queue: Option<&str>,
        now: i128,
    ) -> (r: Result<u128, u128>)
        requires
            old(self).wf(),
        ensures
            final(self).wf(),
            enqueue_result(
                old(self).view(),
                final(self).view(),
                r,
                task_type,
                None,
                manga_id,
                chapter_id,
                priority,
                queue_or_default(str_opt_view(queue)),
                None,
                now,
            ),
    {
        self.enqueue_full(task_type, None, manga_id, chapter_id, priority, queue, None, now)
    }

    /// A new pending task for a library, on the system queue.
    pub fn enqueue_for_library(&mut self, task_type: TaskType, library_id: u128, priority: i64, now: i128) -> (r: Result<u128, u128>)
        requires
            old(self).wf(),
        ensures
            final(self).wf(),
            enqueue_result(old(self).view(), final(self).view(), r, task_type, Some(library_id), None, None, priority, "system"@, None, now),
    {
        self.enqueue_full(task_type, Some(library_id), None, None, priority, None, None, now)
    }

    /// A new pending task with an optional queue and payload.
    pub fn enqueue_with_payload(
        &mut self,
        task_type: TaskType,
        manga_id: Option<u128>,
        chapter_id: Option<u128>,
        priority: i64,
        queue: Option<&str>,
        payload: Option<&str>,
        now: i128,
    ) -> (r: Result<u128, u128>)
        requires
            old(self).wf(),
        ensures
            final(self).wf(),
            enqueue_result(
                old(self).view(),
                final(self).view(),
                r,
                task_type,
                None,
                manga_id,
                chapter_id,
                priority,
                queue_or_default(str_opt_view(queue)),
                str_opt_view(payload),
                now,
            ),
    {
        self.enqueue_full(task_type, None, manga_id, chapter_id, priority, queue, payload, now)
    }

    /// A new pending library task with an optional queue and payload.
    pub fn enqueue_library_with_payload(
        &mut self,
        task_type: TaskType,
        library_id: u128,
        priority: i64,
        queue: Option<&str>,
        payload: Option<&str>,
        now: i128,
    ) -> (r: Result<u128, u128>)
        requires
            old(self).wf(),
        ensures
            final(self).wf(),
            enqueue_result(
                old(self).view(),
                final(self).view(),
                r,
                task_type,
                Some(library_id),
                None,
                None,
                priority,
                queue_or_default(str_opt_view(queue)),
                str_opt_view(payload),
                now,
            ),
    {
        self.enqueue_full(task_type, Some(library_id), None, None, priority, queue, payload, now)
    }

    /// A new pending task at the front of `queue`: its priority is one below
    /// the smallest pending priority there.
    pub fn enqueue_at_front(
        &mut self,
        task_type: TaskType,
        manga_id: Option<u128>,
        chapter_id: Option<u128>,
        queue: &str,
        payload: Option<&str>,
        now: i128,
    ) -> (r: Result<u128, u128>)
        requires
            old(self).wf(),
        ensures
            final(self).wf(),
            enqueue_result(
                old(self).view(),
                final(self).view(),
                r,
                task_type,
                None,
                manga_id,
                chapter_id,
                front_priority_spec(old(self).view(), queue@) as i64,
                queue@,
                str_opt_view(payload),
                now,
            ),
    {
        let priority = next_front_priority(self.tasks.as_slice(), queue);
        self.enqueue_full(task_type, None, manga_id, chapter_id, priority, Some(queue), payload, now)
    }
}

/// A pending task promoted to the front of its queue is the next one claimed
/// from that queue once it is due, provided no pending task of the queue
/// already sits at `i64::MIN`.
pub proof fn law_prioritised_task_claimed_next(before: Seq<Task>, i: int, now: i128, after: Seq<Task>, later: i128, r: Option<Task>)
    requires
        0 <= i < before.len(),
        before[i].status == TaskStatus::Pending,
        before[i].run_after <= later,
        forall|j: int| 0 <= j < before.len() && (#[trigger] before[j]).status == TaskStatus::Pending
            && before[j].queue@ == before[i].queue@ ==> before[j].priority > i64::MIN,
        claim_result(before.update(i, promoted_task(before, i, now)), after, Some(before[i].queue@), later, r),
    ensures
        r matches Some(t) && t.id == before[i].id,
{
    let q = before[i].queue@;
    let mid = before.update(i, promoted_task(before, i, now));
    lemma_min_pending_bounds(before, q);
    assert(claimable(mid[i], Some(q), later as int));
    match r {
        None => {},
        Some(t) => {
            let k = choose|k: usize| claim_choice_ok(mid, Some(q), later as int, Some(k)) && t == mid[k as int]
                && after == mid.update(k as int, with_status(mid[k as int], TaskStatus::Running, later));
            if k as int != i {
                assert(mid[k as int] == before[k as int]);
                assert(claims_before(mid[i], mid[k as int]));
            }
        },
    }
}

/// A task enqueued at the front of a queue is the next one claimed from it
/// once it is due, provided no pending task of the queue sits at `i64::MIN`.
pub proof fn law_front_enqueued_task_claimed_next(
    before: Seq<Task>,
    mid: Seq<Task>,
    id: u128,
    task_type: TaskType,
    manga_id: Option<u128>,
    chapter_id: Option<u128>,
    q: Seq<char>,
    payload: Option<Seq<char>>,
    now: i128,
    after: Seq<Task>,
    later: i128,
    r: Option<Task>,
)
    requires
        enqueue_result(before, mid, Ok(id), task_type, None, manga_id, chapter_id, front_priority_spec(before, q) as i64, q, payload, now),
        now <= later,
        forall|j: int| 0 <= j < before.len() && (#[trigger] before[j]).status == TaskStatus::Pending && before[j].queue@ == q
            ==> before[j].priority > i64::MIN,
        claim_result(mid, after, Some(q), later, r),
    ensures
        r matches Some(t) && t.id == id,
{
    let x = before.len() as int;
    lemma_min_pending_bounds(before, q);
    lemma_front_priority_fits(before, q);
    assert(mid[x] == mid.last());
    assert(claimable(mid[x], Some(q), later as int));
    match r {
        None => {},
        Some(t) => {
            let k = choose|k: usize| claim_choice_ok(mid, Some(q), later as int, Some(k)) && t == mid[k as int]
                && after == mid.update(k as int, with_status(mid[k as int], TaskStatus::Running, later));
            if k as int != x {
                assert(mid[k as int] == mid.drop_last()[k as int]);
                assert(claims_before(mid[x], mid[k as int]));
            }
        },
    }
}

/// A cancelled task is never claimed afterwards.
pub proof fn law_cancelled_task_not_claimed(
    before: Seq<Task>,
    mid: Seq<Task>,
    id: u128,
    now: i128,
    after: Seq<Task>,
    queue: Option<Seq<char>>,
    later: i128,
    r: Option<Task>,
)
    requires
        cancelled_rel(before, mid, id, now),
        claim_result(mid, after, queue, later, r),
    ensures
        !(r matches Some(t) && t.id == id),
{
    match r {
        None => {},
        Some(t) => {
            let k = choose|k: usize| claim_choice_ok(mid, queue, later as int, Some(k)) && t == mid[k as int]
                && after == mid.update(k as int, with_status(mid[k as int], TaskStatus::Running, later));
            assert(mid[k as int] == if before[k as int].id == id && is_active(before[k as int].status) {
                with_status(before[k as int], TaskStatus::Cancelled, now)
            } else {
                before[k as int]
            });
        },
    }
}

/// After a retention run, no other run happens within a day of it.
pub proof fn law_retention_runs_once_a_day(enabled: bool, ran_at: i128, later: i128)
    requires
        later - ran_at < NANOS_PER_DAY,
    ensures
        !retention_due_spec(enabled, Some(ran_at), later),
{
}

} // verus!
