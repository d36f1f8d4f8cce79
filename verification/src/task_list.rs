//! Task listings: the query of the task list, the queue page's snapshot of
//! active tasks and recent history, and active tasks grouped by queue (the
//! system queue first, then one per registered provider, with counts).
//! Instants are nanoseconds since the Unix epoch.

use vstd::prelude::*;
use crate::errors::{bad_request, is_failure, ApiFailure, ApiStatus};
use crate::manga::{parse_uuid, uuid_parsed};
use crate::task::{
    chapter_number_raw, chapter_number_spec, parse_status_filters, status_filters_spec, TaskListQuery,
    TaskProgress,
};
use crate::text::{opt_view, push_str, str_eq};

verus! {

/// An active task as a stored row gives it.
#[derive(Debug)]
pub struct QueuedTaskRow {
    pub id: String,
    pub task_type: String,
    pub status: String,
    pub queue: String,
    pub manga_id: Option<String>,
    pub chapter_id: Option<String>,
    pub priority: i64,
    pub attempt: i64,
    pub max_attempts: i64,
    pub last_error: Option<String>,
    /// The progress that the task's payload records, when it reads as one.
    pub progress: Option<TaskProgress>,
    pub manga_title: Option<String>,
    pub chapter_base: Option<i64>,
    pub chapter_variant: Option<i64>,
    pub created_at: i128,
    pub updated_at: i128,
}

/// An active task as the queue page shows it.
#[derive(Debug)]
pub struct QueuedTask {
    pub id: String,
    pub task_type: String,
    pub status: String,
    pub manga_id: Option<String>,
    pub chapter_id: Option<String>,
    pub priority: i64,
    pub attempt: i64,
    pub max_attempts: i64,
    pub last_error: Option<String>,
    pub progress: Option<TaskProgress>,
    pub manga_title: Option<String>,
    pub chapter_number_raw: Option<String>,
    pub queue: String,
    pub created_at: i128,
    pub updated_at: i128,
}

/// One queue of the queue page.
#[derive(Debug)]
pub struct QueueInfo {
    /// The provider's name for a provider queue, "System" for the system queue.
    pub display_name: String,
    pub is_provider: bool,
    pub provider_name: Option<String>,
    pub tasks: Vec<QueuedTask>,
    pub running_count: usize,
    pub pending_count: usize,
    pub total_count: usize,
    /// Workers that serve the queue.
    pub worker_count: usize,
}

/// The task a row shows: the row's fields, with the chapter number written
/// out from its base and variant.
pub fn queued_task_from_row(row: QueuedTaskRow) -> (t: QueuedTask)
    ensures
        t.id == row.id && t.task_type == row.task_type && t.status == row.status && t.queue == row.queue,
        t.manga_id == row.manga_id && t.chapter_id == row.chapter_id && t.last_error == row.last_error,
        t.priority == row.priority && t.attempt == row.attempt && t.max_attempts == row.max_attempts,
        t.progress == row.progress && t.manga_title == row.manga_title,
        t.created_at == row.created_at && t.updated_at == row.updated_at,
        match row.chapter_base {
            None => t.chapter_number_raw is None,
            Some(b) => t.chapter_number_raw matches Some(n) && n@ == chapter_number_spec(
                b,
                match row.chapter_variant {
                    Some(v) => v,
                    None => 0,
                },
            ),
        },
{
    let chapter_number_raw = chapter_number_raw(row.chapter_base, row.chapter_variant);
    QueuedTask {
        id: row.id,
        task_type: row.task_type,
        status: row.status,
        manga_id: row.manga_id,
        chapter_id: row.chapter_id,
        priority: row.priority,
        attempt: row.attempt,
        max_attempts: row.max_attempts,
        last_error: row.last_error,
        progress: row.progress,
        manga_title: row.manga_title,
        chapter_number_raw,
        queue: row.queue,
        created_at: row.created_at,
        updated_at: row.updated_at,
    }
}

/// Whether a task is in queue `q`.
pub open spec fn queue_is(q: Seq<char>) -> spec_fn(QueuedTask) -> bool {
    |t: QueuedTask| t.queue@ == q
}

/// Whether a task is in a queue other than `q`.
pub open spec fn queue_is_not(q: Seq<char>) -> spec_fn(QueuedTask) -> bool {
    |t: QueuedTask| t.queue@ != q
}

/// The queue of a provider.
pub open spec fn provider_queue_name(p: Seq<char>) -> Seq<char> {
    "provider:"@ + p
}

/// The tasks left once the system queue and the queues of the first `k`
/// providers have taken theirs.
pub open spec fn left_after(tasks: Seq<QueuedTask>, providers: Seq<(String, usize)>, k: int) -> Seq<QueuedTask>
    decreases k,
{
    if k <= 0 {
        tasks.filter(queue_is_not("system"@))
    } else {
        left_after(tasks, providers, k - 1).filter(queue_is_not(provider_queue_name(providers[k - 1].0@)))
    }
}

/// How many tasks have status `st`.
pub open spec fn status_count(s: Seq<QueuedTask>, st: Seq<char>) -> nat
    decreases s.len(),
{
    if s.len() == 0 {
        0
    } else {
        status_count(s.drop_last(), st) + if s.last().status@ == st {
            1nat
        } else {
            0nat
        }
    }
}

/// Running tasks come first.
pub open spec fn run_rank(t: QueuedTask) -> int {
    if t.status@ == "Running"@ {
        0
    } else {
        1
    }
}

/// `a` may stand before `b`: running before the rest, then older first.
pub open spec fn listed_before(a: QueuedTask, b: QueuedTask) -> bool {
    run_rank(a) < run_rank(b) || (run_rank(a) == run_rank(b) && a.created_at <= b.created_at)
}

/// Whether a task has this rank and creation time.
pub open spec fn place_is(rank: int, at: i128) -> spec_fn(QueuedTask) -> bool {
    |t: QueuedTask| run_rank(t) == rank && t.created_at == at
}

/// `r` is `s` with running tasks first, then older first; tasks that tie
/// keep their order.
pub open spec fn running_first(r: Seq<QueuedTask>, s: Seq<QueuedTask>) -> bool {
    &&& forall|i: int, j: int| 0 <= i < j < r.len() ==> listed_before(r[i], r[j])
    &&& forall|rank: int, at: i128| #[trigger] r.filter(place_is(rank, at)) == s.filter(place_is(rank, at))
}

/// The tasks of queue `q` and the rest, each in their order.
fn take_queue(pool: Vec<QueuedTask>, q: &str) -> (r: (Vec<QueuedTask>, Vec<QueuedTask>))
    ensures
        r.0@ == pool@.filter(queue_is(q@)),
        r.1@ == pool@.filter(queue_is_not(q@)),
{
    let ghost orig = pool@;
    let mut rest = pool;
    let mut mine: Vec<QueuedTask> = Vec::new();
    let mut others: Vec<QueuedTask> = Vec::new();
    let mut j: usize = 0;
    assert(orig.len() == rest.len());
    while rest.len() > 0
        invariant
            j <= orig.len() <= usize::MAX,
            rest@ == orig.skip(j as int),
            mine@ == orig.take(j as int).filter(queue_is(q@)),
            others@ == orig.take(j as int).filter(queue_is_not(q@)),
        decreases rest.len(),
    {
        let t = rest.remove(0);
        proof {
            assert(t == orig[j as int]);
            assert(rest@ =~= orig.skip(j + 1));
            assert(orig.take(j + 1).drop_last() =~= orig.take(j as int));
            reveal(Seq::filter);
        }
        if str_eq(t.queue.as_str(), q) {
            mine.push(t);
        } else {
            others.push(t);
        }
        j += 1;
    }
    proof {
        assert(orig.take(j as int) =~= orig);
    }
    (mine, others)
}

/// How many tasks are running and how many pending.
fn count_running_pending(tasks: &Vec<QueuedTask>) -> (r: (usize, usize))
    ensures
        r.0 == status_count(tasks@, "Running"@),
        r.1 == status_count(tasks@, "Pending"@),
        r.0 + r.1 <= tasks.len(),
{
    proof {
        reveal_strlit("Running");
        reveal_strlit("Pending");
        assert("Running"@[0] != "Pending"@[0]);
    }
    let mut running: usize = 0;
    let mut pending: usize = 0;
    let mut i: usize = 0;
    while i < tasks.len()
        invariant
            i <= tasks.len(),
            "Running"@ != "Pending"@,
            running == status_count(tasks@.take(i as int), "Running"@),
            pending == status_count(tasks@.take(i as int), "Pending"@),
            running + pending <= i,
        decreases tasks.len() - i,
    {
        proof {
            assert(tasks@.take(i + 1).drop_last() =~= tasks@.take(i as int));
        }
        if str_eq(tasks[i].status.as_str(), "Running") {
            running += 1;
        } else if str_eq(tasks[i].status.as_str(), "Pending") {
            pending += 1;
        }
        i += 1;
    }
    proof {
        assert(tasks@.take(tasks.len() as int) =~= tasks@);
    }
    (running, pending)
}

/// Where a task goes: after every task that may stand before it.
fn insertion_point(r: &Vec<QueuedTask>, rank: u8, at: i128) -> (p: usize)
    requires
        forall|i: int, j: int| 0 <= i < j < r.len() ==> listed_before(r@[i], r@[j]),
        rank == 0 || rank == 1,
    ensures
        p <= r@.len(),
        forall|i: int| 0 <= i < p ==> run_rank(r@[i]) < rank || (run_rank(r@[i]) == rank && r@[i].created_at <= at),
        forall|i: int| p <= i < r@.len() ==> !(run_rank(r@[i]) < rank || (run_rank(r@[i]) == rank && r@[i].created_at <= at)),
{
    let mut p: usize = 0;
    while p < r.len()
        invariant
            p <= r@.len(),
            forall|i: int, j: int| 0 <= i < j < r.len() ==> listed_before(r@[i], r@[j]),
            forall|i: int| 0 <= i < p ==> run_rank(r@[i]) < rank || (run_rank(r@[i]) == rank && r@[i].created_at <= at),
        decreases r.len() - p,
    {
        let rp: u8 = if str_eq(r[p].status.as_str(), "Running") {
            0
        } else {
            1
        };
        if !(rp < rank || (rp == rank && r[p].created_at <= at)) {
            proof {
                assert(rp == run_rank(r@[p as int]));
                assert forall|i: int| p <= i < r@.len() implies !(run_rank(r@[i]) < rank || (run_rank(r@[i]) == rank
                    && r@[i].created_at <= at)) by {
                    if i > p {
                        assert(listed_before(r@[p as int], r@[i]));
                    }
                }
            }
            return p;
        }
        p += 1;
    }
    p
}

proof fn lemma_insert_keeps_places(s: Seq<QueuedTask>, p: int, a: QueuedTask, rank: int, at: i128)
    requires
        0 <= p <= s.len(),
        forall|i: int| 0 <= i < p ==> listed_before(s[i], a),
        forall|i: int| p <= i < s.len() ==> !listed_before(s[i], a),
    ensures
        s.insert(p, a).filter(place_is(rank, at)) == s.push(a).filter(place_is(rank, at)),
    decreases s.len() - p,
{
    reveal(Seq::filter);
    if p == s.len() {
        assert(s.insert(p, a) =~= s.push(a));
    } else {
        let last = s.last();
        let init = s.drop_last();
        lemma_insert_keeps_places(init, p, a, rank, at);
        assert(s.insert(p, a) =~= init.insert(p, a).push(last));
        assert(s.insert(p, a).drop_last() =~= init.insert(p, a));
        assert(s.push(a).drop_last() =~= s);
        assert(init.push(a).drop_last() =~= init);
        if place_is(rank, at)(last) {
            assert(!place_is(rank, at)(a));
            assert(s.push(a).filter(place_is(rank, at)) =~= s.filter(place_is(rank, at)));
            assert(init.push(a).filter(place_is(rank, at)) =~= init.filter(place_is(rank, at)));
        } else {
            assert(s.filter(place_is(rank, at)) =~= init.filter(place_is(rank, at)));
        }
    }
}

/// Running tasks first, then older first; ties keep their order.
fn sort_running_first(tasks: Vec<QueuedTask>) -> (r: Vec<QueuedTask>)
    ensures
        running_first(r@, tasks@),
        r.len() == tasks.len(),
{
    let ghost orig = tasks@;
    let mut rest = tasks;
    let mut r: Vec<QueuedTask> = Vec::new();
    let mut j: usize = 0;
    assert(orig.len() == rest.len());
    while rest.len() > 0
        invariant
            j <= orig.len() <= usize::MAX,
            rest@ == orig.skip(j as int),
            r.len() == j,
            forall|x: int, y: int| 0 <= x < y < r.len() ==> listed_before(r@[x], r@[y]),
            forall|rank: int, at: i128| #[trigger] r@.filter(place_is(rank, at)) == orig.take(j as int).filter(place_is(rank, at)),
        decreases rest.len(),
    {
        let t = rest.remove(0);
        proof {
            assert(t == orig[j as int]);
            assert(rest@ =~= orig.skip(j + 1));
            assert(orig.take(j + 1) =~= orig.take(j as int).push(t));
        }
        let rank: u8 = if str_eq(t.status.as_str(), "Running") {
            0
        } else {
            1
        };
        let p = insertion_point(&r, rank, t.created_at);
        let ghost before = r@;
        r.insert(p, t);
        proof {
            assert(rank == run_rank(t));
            assert forall|rank2: int, at2: i128| #[trigger] r@.filter(place_is(rank2, at2)) == orig.take(j + 1).filter(place_is(rank2, at2)) by {
                lemma_insert_keeps_places(before, p as int, t, rank2, at2);
                before.lemma_filter_push(t, place_is(rank2, at2));
                orig.take(j as int).lemma_filter_push(t, place_is(rank2, at2));
            }
            assert forall|x: int, y: int| 0 <= x < y < r.len() implies listed_before(r@[x], r@[y]) by {
                if y < p {
                } else if y == p {
                } else if x < p {
                    assert(r@[y] == before[y - 1]);
                } else if x == p {
                    assert(r@[y] == before[y - 1]);
                } else {
                    assert(r@[x] == before[x - 1] && r@[y] == before[y - 1]);
                }
            }
        }
        j += 1;
    }
    proof {
        assert(orig.take(j as int) =~= orig);
    }
    r
}

/// What the queue page shows of a provider's queue.
pub open spec fn provider_queue_ok(q: QueueInfo, provider: (String, usize), mine: Seq<QueuedTask>) -> bool {
    &&& q.display_name@ == provider.0@
    &&& q.is_provider
    &&& q.provider_name matches Some(p) && p@ == provider.0@
    &&& running_first(q.tasks@, mine)
    &&& q.running_count == status_count(mine, "Running"@)
    &&& q.pending_count == status_count(mine, "Pending"@)
    &&& q.total_count == q.running_count + q.pending_count
    &&& q.worker_count == provider.1
}

/// Groups active tasks by queue: first the system queue (2 workers) with its
/// tasks in the order given, then the queue of each registered provider
/// (name and worker count), in registry order, whether it has tasks or not,
/// running tasks first and then older first. Tasks of other queues are not
/// shown; a provider registered twice gets its tasks the first time.
pub fn list_tasks_grouped(tasks: Vec<QueuedTask>, providers: &Vec<(String, usize)>) -> (r: Vec<QueueInfo>)
    ensures
        r.len() == providers.len() + 1,
        r[0].display_name@ == "System"@,
        !r[0].is_provider,
        r[0].provider_name is None,
        r[0].tasks@ == tasks@.filter(queue_is("system"@)),
        r[0].running_count == status_count(tasks@.filter(queue_is("system"@)), "Running"@),
        r[0].pending_count == status_count(tasks@.filter(queue_is("system"@)), "Pending"@),
        r[0].total_count == r[0].tasks.len(),
        r[0].worker_count == 2,
        forall|k: int| 0 <= k < providers.len() ==> provider_queue_ok(
            #[trigger] r[k + 1],
            providers[k],
            left_after(tasks@, providers@, k).filter(queue_is(provider_queue_name(providers[k].0@))),
        ),
{
    let ghost all = tasks@;
    let (sys, mut rest) = take_queue(tasks, "system");
    let (running, pending) = count_running_pending(&sys);
    let total = sys.len();
    let mut result: Vec<QueueInfo> = Vec::new();
    result.push(QueueInfo {
        display_name: "System".to_string(),
        is_provider: false,
        provider_name: None,
        tasks: sys,
        running_count: running,
        pending_count: pending,
        total_count: total,
        worker_count: 2,
    });
    let mut k: usize = 0;
    while k < providers.len()
        invariant
            k <= providers.len(),
            result.len() == k + 1,
            rest@ == left_after(all, providers@, k as int),
            result[0].display_name@ == "System"@,
            !result[0].is_provider,
            result[0].provider_name is None,
            result[0].tasks@ == all.filter(queue_is("system"@)),
            result[0].running_count == status_count(all.filter(queue_is("system"@)), "Running"@),
            result[0].pending_count == status_count(all.filter(queue_is("system"@)), "Pending"@),
            result[0].total_count == result[0].tasks.len(),
            result[0].worker_count == 2,
            forall|i: int| 0 <= i < k ==> provider_queue_ok(
                #[trigger] result[i + 1],
                providers[i],
                left_after(all, providers@, i).filter(queue_is(provider_queue_name(providers[i].0@))),
            ),
        decreases providers.len() - k,
    {
        let pname = providers[k].0.as_str();
        let mut qname = String::new();
        push_str(&mut qname, "provider:");
        push_str(&mut qname, pname);
        let (mine, others) = take_queue(rest, qname.as_str());
        let (running, pending) = count_running_pending(&mine);
        let ghost mine_view = mine@;
        let sorted = sort_running_first(mine);
        let ghost before = result@;
        result.push(QueueInfo {
            display_name: pname.to_string(),
            is_provider: true,
            provider_name: Some(pname.to_string()),
            tasks: sorted,
            running_count: running,
            pending_count: pending,
            total_count: running + pending,
            worker_count: providers[k].1,
        });
        proof {
            assert(left_after(all, providers@, k + 1) == left_after(all, providers@, k as int).filter(
                queue_is_not(provider_queue_name(providers[k as int].0@)),
            ));
            assert(qname@ == provider_queue_name(providers[k as int].0@));
            assert forall|i: int| 0 <= i < k + 1 implies provider_queue_ok(
                #[trigger] result[i + 1],
                providers[i],
                left_after(all, providers@, i).filter(queue_is(provider_queue_name(providers[i].0@))),
            ) by {
                if i < k {
                    assert(result[i + 1] == before[i + 1]);
                }
            }
        }
        rest = others;
        k += 1;
    }
    result
}

// ---------------------------------------------------------------------------
// Task list query
// ---------------------------------------------------------------------------

/// Terminal tasks shown on the queue page when no limit is asked for.
pub const DEFAULT_QUEUE_TERMINAL_LIMIT: i64 = 200;

/// A checked task list query.
#[derive(Debug)]
pub struct RecentTaskQuery {
    pub manga_id: Option<u128>,
    /// At most this many tasks; only a positive limit is kept.
    pub limit: Option<i64>,
    /// Only tasks created before this instant.
    pub before: Option<i128>,
    pub statuses: Vec<String>,
}

/// Name for what `chrono::DateTime::parse_from_rfc3339` gives for a text, as
/// whole seconds and nanoseconds since the Unix epoch in UTC.
pub uninterp spec fn rfc3339_instant(s: Seq<char>) -> Option<(i64, u32)>;

/// `chrono::DateTime::parse_from_rfc3339`, converted to UTC: the instant as
/// whole seconds since the Unix epoch and the nanoseconds past them. The
/// contract names the result and claims nothing more of it.
#[verifier::external_body]
fn parse_rfc3339(s: &str) -> (r: Option<(i64, u32)>)
    ensures
        r == rfc3339_instant(s@),
{
    chrono::DateTime::parse_from_rfc3339(s).ok().map(|t| t.with_timezone(&chrono::Utc)).map(|t| (t.timestamp(), t.timestamp_subsec_nanos()))
}

/// Nanoseconds since the Unix epoch of an instant given as seconds and nanoseconds.
pub open spec fn instant_nanos(t: (i64, u32)) -> int {
    t.0 * 1_000_000_000 + t.1
}

/// A `before` bound as text read as an instant, or the error of the listing.
pub fn parse_before(raw: Option<&str>) -> (r: Result<Option<i128>, ApiFailure>)
    ensures
        match raw {
            None => r == Ok::<Option<i128>, ApiFailure>(None),
            Some(s) => match rfc3339_instant(s@) {
                Some(t) => r matches Ok(Some(n)) && n == instant_nanos(t),
                None => r matches Err(f) && is_failure(f, ApiStatus::BadRequest, "invalid before timestamp"@),
            },
        },
{
    match raw {
        None => Ok(None),
        Some(s) => match parse_rfc3339(s) {
            Some((secs, nanos)) => {
                let n = (secs as i128) * 1_000_000_000i128 + (nanos as i128);
                Ok(Some(n))
            },
            None => Err(bad_request("invalid before timestamp")),
        },
    }
}

/// A series id as text read as a UUID, or the error of the listing.
pub fn parse_manga_id(raw: Option<&str>) -> (r: Result<Option<u128>, ApiFailure>)
    ensures
        match raw {
            None => r == Ok::<Option<u128>, ApiFailure>(None),
            Some(s) => match uuid_parsed(s@) {
                Some(u) => r == Ok::<Option<u128>, ApiFailure>(Some(u)),
                None => r matches Err(f) && is_failure(f, ApiStatus::BadRequest, "invalid manga_id"@),
            },
        },
{
    match raw {
        None => Ok(None),
        Some(s) => match parse_uuid(s) {
            Some(u) => Ok(Some(u)),
            None => Err(bad_request("invalid manga_id")),
        },
    }
}

/// The query that a task list request makes, checked in order: the series
/// id, the `before` instant, then the status filters. A limit that is not
/// positive is dropped.
pub fn list_tasks_query(query: &TaskListQuery) -> (r: Result<RecentTaskQuery, ApiFailure>)
    ensures
        match opt_view(query.manga_id) {
            Some(m) if uuid_parsed(m) is None => r matches Err(f) && is_failure(f, ApiStatus::BadRequest, "invalid manga_id"@),
            _ => match opt_view(query.before) {
                Some(b) if rfc3339_instant(b) is None => r matches Err(f) && is_failure(f, ApiStatus::BadRequest, "invalid before timestamp"@),
                _ => match status_filters_spec(query.status@.map_values(|v: String| v@)) {
                    None => r matches Err(f) && is_failure(f, ApiStatus::BadRequest, "invalid status filter"@),
                    Some(st) => r matches Ok(q) && q.statuses@.map_values(|v: String| v@) == st
                        && q.manga_id == match opt_view(query.manga_id) {
                            Some(m) => uuid_parsed(m),
                            None => None,
                        }
                        && q.before == match opt_view(query.before) {
                            Some(b) => Some(instant_nanos(rfc3339_instant(b).unwrap()) as i128),
                            None => None,
                        }
                        && q.limit == match query.limit {
                            Some(l) => if l > 0 { Some(l) } else { None },
                            None => None,
                        },
                },
            },
        },
{
    let manga_id = parse_manga_id(match &query.manga_id {
        Some(m) => Some(m.as_str()),
        None => None,
    })?;
    let limit = match query.limit {
        Some(l) => if l > 0 {
            Some(l)
        } else {
            None
        },
        None => None,
    };
    let before = parse_before(match &query.before {
        Some(b) => Some(b.as_str()),
        None => None,
    })?;
    let statuses = parse_status_filters(query.status.as_slice())?;
    Ok(RecentTaskQuery { manga_id, limit, before, statuses })
}

// ---------------------------------------------------------------------------
// Queue snapshot
// ---------------------------------------------------------------------------

/// A task of a listing.
#[derive(Debug)]
pub struct RecentTask {
    pub id: String,
    pub task_type: String,
    pub status: String,
    pub manga_id: Option<String>,
    pub chapter_id: Option<String>,
    pub priority: i64,
    pub attempt: i64,
    pub max_attempts: i64,
    pub last_error: Option<String>,
    pub progress: Option<TaskProgress>,
    pub manga_title: Option<String>,
    pub chapter_number_raw: Option<String>,
    pub created_at: i128,
    pub updated_at: i128,
}

/// The queue page's tasks: every active task and the latest finished ones.
#[derive(Debug)]
pub struct QueueTaskSnapshot {
    pub tasks: Vec<RecentTask>,
    pub terminal_limit: i64,
    /// Whether older finished tasks are left out.
    pub has_more_history: bool,
    /// Where the next page of history starts: the oldest finished task shown.
    pub next_before: Option<i128>,
}

/// The queries of a queue snapshot: active tasks, then finished tasks (one
/// more than the limit, at least 1, to tell whether more remain), and the limit.
pub fn queue_snapshot_queries(manga_id: Option<u128>, terminal_limit: i64) -> (r: (RecentTaskQuery, RecentTaskQuery, i64))
    requires
        terminal_limit < i64::MAX,
    ensures
        r.2 == if terminal_limit < 1 { 1 } else { terminal_limit },
        r.0.manga_id == manga_id && r.0.limit is None && r.0.before is None,
        r.0.statuses@.map_values(|v: String| v@) == seq!["Pending"@, "Running"@],
        r.1.manga_id == manga_id && r.1.limit == Some((r.2 + 1) as i64) && r.1.before is None,
        r.1.statuses@.map_values(|v: String| v@) == seq!["Completed"@, "Failed"@, "Cancelled"@],
{
    let limit = if terminal_limit < 1 {
        1
    } else {
        terminal_limit
    };
    let active = vec!["Pending".to_string(), "Running".to_string()];
    let finished = vec!["Completed".to_string(), "Failed".to_string(), "Cancelled".to_string()];
    proof {
        assert(active@.map_values(|v: String| v@) =~= seq!["Pending"@, "Running"@]);
        assert(finished@.map_values(|v: String| v@) =~= seq!["Completed"@, "Failed"@, "Cancelled"@]);
    }
    (
        RecentTaskQuery { manga_id, limit: None, before: None, statuses: active },
        RecentTaskQuery { manga_id, limit: Some(limit + 1), before: None, statuses: finished },
        limit,
    )
}

/// Newest first.
pub open spec fn newest_first(r: Seq<RecentTask>) -> bool {
    forall|i: int, j: int| 0 <= i < j < r.len() ==> r[i].created_at >= r[j].created_at
}

/// Whether a task was created at `at`.
pub open spec fn created_at_is(at: i128) -> spec_fn(RecentTask) -> bool {
    |t: RecentTask| t.created_at == at
}

fn newest_insertion_point(r: &Vec<RecentTask>, at: i128) -> (p: usize)
    requires
        newest_first(r@),
    ensures
        p <= r@.len(),
        forall|i: int| 0 <= i < p ==> r@[i].created_at >= at,
        forall|i: int| p <= i < r@.len() ==> r@[i].created_at < at,
{
    let mut p: usize = 0;
    while p < r.len() && r[p].created_at >= at
        invariant
            p <= r@.len(),
            newest_first(r@),
            forall|i: int| 0 <= i < p ==> r@[i].created_at >= at,
        decreases r.len() - p,
    {
        p += 1;
    }
    p
}

proof fn lemma_insert_keeps_times(s: Seq<RecentTask>, p: int, a: RecentTask, at: i128)
    requires
        0 <= p <= s.len(),
        forall|i: int| 0 <= i < p ==> s[i].created_at >= a.created_at,
        forall|i: int| p <= i < s.len() ==> s[i].created_at < a.created_at,
    ensures
        s.insert(p, a).filter(created_at_is(at)) == s.push(a).filter(created_at_is(at)),
    decreases s.len() - p,
{
    reveal(Seq::filter);
    if p == s.len() {
        assert(s.insert(p, a) =~= s.push(a));
    } else {
        let last = s.last();
        let init = s.drop_last();
        lemma_insert_keeps_times(init, p, a, at);
        assert(s.insert(p, a) =~= init.insert(p, a).push(last));
        assert(s.insert(p, a).drop_last() =~= init.insert(p, a));
        assert(s.push(a).drop_last() =~= s);
        assert(init.push(a).drop_last() =~= init);
        if created_at_is(at)(last) {
            assert(!created_at_is(at)(a));
            assert(s.push(a).filter(created_at_is(at)) =~= s.filter(created_at_is(at)));
            assert(init.push(a).filter(created_at_is(at)) =~= init.filter(created_at_is(at)));
        } else {
            assert(s.filter(created_at_is(at)) =~= init.filter(created_at_is(at)));
        }
    }
}

/// `tasks` sorted newest first, tasks created together keeping their order.
fn sort_newest_first(tasks: Vec<RecentTask>) -> (r: Vec<RecentTask>)
    ensures
        newest_first(r@),
        forall|at: i128| #[trigger] r@.filter(created_at_is(at)) == tasks@.filter(created_at_is(at)),
        r.len() == tasks.len(),
{
    let ghost orig = tasks@;
    let mut rest = tasks;
    let mut r: Vec<RecentTask> = Vec::new();
    let mut j: usize = 0;
    assert(orig.len() == rest.len());
    while rest.len() > 0
        invariant
            j <= orig.len() <= usize::MAX,
            rest@ == orig.skip(j as int),
            r.len() == j,
            newest_first(r@),
            forall|at: i128| #[trigger] r@.filter(created_at_is(at)) == orig.take(j as int).filter(created_at_is(at)),
        decreases rest.len(),
    {
        let t = rest.remove(0);
        proof {
            assert(t == orig[j as int]);
            assert(rest@ =~= orig.skip(j + 1));
            assert(orig.take(j + 1) =~= orig.take(j as int).push(t));
        }
        let p = newest_insertion_point(&r, t.created_at);
        let ghost before = r@;
        r.insert(p, t);
        proof {
            assert forall|at: i128| #[trigger] r@.filter(created_at_is(at)) == orig.take(j + 1).filter(created_at_is(at)) by {
                lemma_insert_keeps_times(before, p as int, t, at);
                before.lemma_filter_push(t, created_at_is(at));
                orig.take(j as int).lemma_filter_push(t, created_at_is(at));
            }
            assert forall|x: int, y: int| 0 <= x < y < r.len() implies r@[x].created_at >= r@[y].created_at by {
                if y < p {
                } else if y == p {
                } else if x < p {
                    assert(r@[y] == before[y - 1]);
                } else if x == p {
                    assert(r@[y] == before[y - 1]);
                } else {
                    assert(r@[x] == before[x - 1] && r@[y] == before[y - 1]);
                }
            }
        }
        j += 1;
    }
    proof {
        assert(orig.take(j as int) =~= orig);
    }
    r
}

/// The queue page's snapshot from the active tasks and the finished ones
/// (newest first, up to one more than `terminal_limit`): the finished tasks
/// beyond the limit are left out and flagged, and all shown tasks are
/// sorted newest first, tasks created together keeping their order.
pub fn queue_snapshot(active: Vec<RecentTask>, terminal: Vec<RecentTask>, terminal_limit: i64) -> (r: QueueTaskSnapshot)
    requires
        terminal_limit >= 1,
    ensures
        r.terminal_limit == terminal_limit,
        r.has_more_history == (terminal.len() > terminal_limit),
        ({
            let shown = if terminal.len() > terminal_limit {
                terminal@.take(terminal_limit as int)
            } else {
                terminal@
            };
            &&& r.next_before == if shown.len() > 0 {
                Some(shown.last().created_at)
            } else {
                None
            }
            &&& newest_first(r.tasks@)
            &&& forall|at: i128| #[trigger] r.tasks@.filter(created_at_is(at)) == (active@ + shown).filter(created_at_is(at))
        }),
{
    let ghost t0 = terminal@;
    let mut terminal = terminal;
    let has_more_history = terminal.len() as u64 > terminal_limit as u64;
    if has_more_history {
        terminal.truncate(terminal_limit as usize);
    }
    let next_before = if terminal.len() > 0 {
        Some(terminal[terminal.len() - 1].created_at)
    } else {
        None
    };
    let ghost shown = terminal@;
    let mut all = active;
    let ghost a0 = all@;
    all.append(&mut terminal);
    proof {
        assert(all@ == a0 + shown);
    }
    let tasks = sort_newest_first(all);
    QueueTaskSnapshot { tasks, terminal_limit, has_more_history, next_before }
}

} // verus!
