//! Listing the task table for the task pages: the tasks a query asks for,
//! newest first, cut to the query's limit.

use vstd::prelude::*;
use crate::task::{task_status_name, task_status_str, Task};
use crate::task_list::RecentTaskQuery;
use crate::task_table::{copy_task, TaskTable};
use crate::text::str_eq;

verus! {

/// Whether a query lists a task: of the manga asked for, created before the
/// cursor, and in one of the statuses asked for (any status when none is).
pub open spec fn listed_by(q: RecentTaskQuery, t: Task) -> bool {
    &&& match q.manga_id {
        Some(m) => t.manga_id == Some(m),
        None => true,
    }
    &&& match q.before {
        Some(b) => t.created_at < b,
        None => true,
    }
    &&& (q.statuses@.len() > 0 ==> exists|i: int|
        0 <= i < q.statuses@.len() && #[trigger] q.statuses@[i]@ == task_status_name(t.status))
}

pub open spec fn listed(q: RecentTaskQuery) -> spec_fn(Task) -> bool {
    |t: Task| listed_by(q, t)
}

/// Whether a task belongs to the manga, when one is given.
pub open spec fn of_manga(manga_id: Option<u128>) -> spec_fn(Task) -> bool {
    |t: Task| match manga_id {
        Some(m) => t.manga_id == Some(m),
        None => true,
    }
}

/// Whether a task was created at `at`.
pub open spec fn made_at(at: i128) -> spec_fn(Task) -> bool {
    |t: Task| t.created_at == at
}

/// Newest first.
pub open spec fn tasks_newest_first(s: Seq<Task>) -> bool {
    forall|i: int, j: int| 0 <= i < j < s.len() ==> s[i].created_at >= s[j].created_at
}

/// `o` is `s` ordered newest first, tasks created together keeping their order.
pub open spec fn newest_first_of(s: Seq<Task>, o: Seq<Task>) -> bool {
    &&& tasks_newest_first(o)
    &&& forall|at: i128| #[trigger] o.filter(made_at(at)) == s.filter(made_at(at))
}

/// The tasks of `s` ordered newest first, tasks created together keeping
/// their order (there is exactly one such order: `law_newest_first_order_unique`).
pub open spec fn newest_first_order(s: Seq<Task>) -> Seq<Task> {
    choose|o: Seq<Task>| newest_first_of(s, o)
}

/// The most tasks a query lists: only a positive limit counts.
pub open spec fn list_cap(limit: Option<i64>, s: Seq<Task>) -> Seq<Task> {
    match limit {
        Some(l) => if l > 0 && s.len() > l { s.take(l as int) } else { s },
        None => s,
    }
}

/// What a query lists from a table: the tasks it takes, newest first, cut to its limit.
pub open spec fn listing(rows: Seq<Task>, q: RecentTaskQuery) -> Seq<Task> {
    list_cap(q.limit, newest_first_order(rows.filter(listed(q))))
}

proof fn lemma_last_is_oldest(s: Seq<Task>)
    requires
        tasks_newest_first(s),
        s.len() > 0,
    ensures
        forall|i: int| 0 <= i < s.len() ==> s[i].created_at >= s.last().created_at,
{
}

proof fn lemma_time_not_below_oldest(s: Seq<Task>, at: i128)
    requires
        tasks_newest_first(s),
        s.filter(made_at(at)).len() > 0,
    ensures
        s.len() > 0,
        at >= s.last().created_at,
{
    let f = s.filter(made_at(at));
    let x = f[0];
    assert(f.contains(x));
    s.lemma_filter_pred(made_at(at), 0);
    s.lemma_filter_contains_rev(made_at(at), x);
    let i = choose|i: int| 0 <= i < s.len() && s[i] == x;
    lemma_last_is_oldest(s);
}

proof fn lemma_filter_drop_last(s: Seq<Task>, at: i128)
    requires
        s.len() > 0,
    ensures
        s.drop_last().filter(made_at(at)) == if s.last().created_at == at {
            s.filter(made_at(at)).drop_last()
        } else {
            s.filter(made_at(at))
        },
{
    let init = s.drop_last();
    assert(s =~= init.push(s.last()));
    init.lemma_filter_push(s.last(), made_at(at));
}

proof fn lemma_has_time(s: Seq<Task>, i: int)
    requires
        0 <= i < s.len(),
    ensures
        s.filter(made_at(s[i].created_at)).len() > 0,
{
    let p = made_at(s[i].created_at);
    s.lemma_filter_contains(p, i);
}

/// The newest-first order of a sequence of tasks is unique: two orders that
/// both keep every creation time's tasks in the same order are equal.
pub proof fn law_newest_first_order_unique(s: Seq<Task>, a: Seq<Task>, b: Seq<Task>)
    requires
        newest_first_of(s, a),
        newest_first_of(s, b),
    ensures
        a == b,
    decreases a.len(),
{
    if a.len() == 0 {
        if b.len() > 0 {
            lemma_has_time(b, 0);
            assert(a.filter(made_at(b[0].created_at)) =~= Seq::<Task>::empty());
        }
        assert(a =~= b);
    } else {
        if b.len() == 0 {
            lemma_has_time(a, 0);
            assert(b.filter(made_at(a[0].created_at)) =~= Seq::<Task>::empty());
        }
        let ma = a.last().created_at;
        let mb = b.last().created_at;
        lemma_last_is_oldest(a);
        lemma_last_is_oldest(b);
        lemma_has_time(a, a.len() - 1);
        lemma_has_time(b, b.len() - 1);
        lemma_time_not_below_oldest(b, ma);
        lemma_time_not_below_oldest(a, mb);
        assert(ma == mb);
        let m = ma;
        lemma_filter_drop_last(a, m);
        lemma_filter_drop_last(b, m);
        let a0 = a.drop_last();
        let b0 = b.drop_last();
        assert(a =~= a0.push(a.last()));
        assert(b =~= b0.push(b.last()));
        a0.lemma_filter_push(a.last(), made_at(m));
        b0.lemma_filter_push(b.last(), made_at(m));
        assert(a.filter(made_at(m)).last() == a.last());
        assert(b.filter(made_at(m)).last() == b.last());
        assert(a.last() == b.last());
        let s0 = a0;
        assert forall|at: i128| #[trigger] b0.filter(made_at(at)) == s0.filter(made_at(at)) by {
            lemma_filter_drop_last(a, at);
            lemma_filter_drop_last(b, at);
        }
        law_newest_first_order_unique(s0, a0, b0);
    }
}

fn newest_slot(r: &Vec<Task>, at: i128) -> (p: usize)
    requires
        tasks_newest_first(r@),
    ensures
        p <= r@.len(),
        forall|i: int| 0 <= i < p ==> r@[i].created_at >= at,
        forall|i: int| p <= i < r@.len() ==> r@[i].created_at < at,
{
    let mut p: usize = 0;
    while p < r.len() && r[p].created_at >= at
        invariant
            p <= r@.len(),
            tasks_newest_first(r@),
            forall|i: int| 0 <= i < p ==> r@[i].created_at >= at,
        decreases r.len() - p,
    {
        p += 1;
    }
    p
}

proof fn lemma_slot_keeps_times(s: Seq<Task>, p: int, a: Task, at: i128)
    requires
        0 <= p <= s.len(),
        forall|i: int| 0 <= i < p ==> s[i].created_at >= a.created_at,
        forall|i: int| p <= i < s.len() ==> s[i].created_at < a.created_at,
    ensures
        s.insert(p, a).filter(made_at(at)) == s.push(a).filter(made_at(at)),
    decreases s.len() - p,
{
    reveal(Seq::filter);
    if p == s.len() {
        assert(s.insert(p, a) =~= s.push(a));
    } else {
        let last = s.last();
        let init = s.drop_last();
        lemma_slot_keeps_times(init, p, a, at);
        assert(s.insert(p, a) =~= init.insert(p, a).push(last));
        assert(s.insert(p, a).drop_last() =~= init.insert(p, a));
        assert(s.push(a).drop_last() =~= s);
        assert(init.push(a).drop_last() =~= init);
        if made_at(at)(last) {
            assert(!made_at(at)(a));
            assert(s.push(a).filter(made_at(at)) =~= s.filter(made_at(at)));
            assert(init.push(a).filter(made_at(at)) =~= init.filter(made_at(at)));
        } else {
            assert(s.filter(made_at(at)) =~= init.filter(made_at(at)));
        }
    }
}

/// `tasks` ordered newest first, tasks created together keeping their order.
fn order_newest_first(tasks: Vec<Task>) -> (r: Vec<Task>)
    ensures
        newest_first_of(tasks@, r@),
{
    let ghost orig = tasks@;
    let mut rest = tasks;
    let mut r: Vec<Task> = Vec::new();
    let mut j: usize = 0;
    assert(orig.len() == rest.len());
    while rest.len() > 0
        invariant
            j <= orig.len() <= usize::MAX,
            rest@ == orig.skip(j as int),
            tasks_newest_first(r@),
            forall|at: i128| #[trigger] r@.filter(made_at(at)) == orig.take(j as int).filter(made_at(at)),
        decreases rest.len(),
    {
        let t = rest.remove(0);
        proof {
            assert(t == orig[j as int]);
            assert(rest@ =~= orig.skip(j + 1));
            assert(orig.take(j + 1) =~= orig.take(j as int).push(t));
        }
        let p = newest_slot(&r, t.created_at);
        let ghost before = r@;
        r.insert(p, t);
        proof {
            assert forall|at: i128| #[trigger] r@.filter(made_at(at)) == orig.take(j + 1).filter(made_at(at)) by {
                lemma_slot_keeps_times(before, p as int, t, at);
                before.lemma_filter_push(t, made_at(at));
                orig.take(j as int).lemma_filter_push(t, made_at(at));
            }
            assert forall|x: int, y: int| 0 <= x < y < r.len() implies r@[x].created_at >= r@[y].created_at by {
                if y < p {
                } else if y == p {
                } else if x < p {
                    assert(r@[y] == before[y - 1]);
                } else if x == p {
                    assert(r@[y] == before[y - 1]);
                } else {
                    assert(r@[x] == before[x - 1] && r@[y] == before[y - 1]);
                }
            }
        }
        j += 1;
    }
    proof {
        assert(orig.take(j as int) =~= orig);
    }
    r
}

/// Whether a query lists a task.
pub fn lists_task(q: &RecentTaskQuery, t: &Task) -> (r: bool)
    ensures
        r == listed_by(*q, *t),
{
    match q.manga_id {
        Some(m) => {
            if t.manga_id != Some(m) {
                return false;
            }
        },
        None => {},
    }
    match q.before {
        Some(b) => {
            if t.created_at >= b {
                return false;
            }
        },
        None => {},
    }
    q.statuses.len() == 0 || status_asked(&q.statuses, t)
}

fn status_asked(statuses: &Vec<String>, t: &Task) -> (r: bool)
    ensures
        r == exists|i: int| 0 <= i < statuses@.len() && #[trigger] statuses@[i]@ == task_status_name(t.status),
{
    let name = task_status_str(&t.status);
    let mut k: usize = 0;
    while k < statuses.len()
        invariant
            k <= statuses@.len(),
            name@ == task_status_name(t.status),
            forall|i: int| 0 <= i < k ==> statuses@[i]@ != task_status_name(t.status),
        decreases statuses.len() - k,
    {
        if str_eq(statuses[k].as_str(), name) {
            assert(statuses@[k as int]@ == task_status_name(t.status));
            return true;
        }
        k += 1;
    }
    false
}

impl TaskTable {
    /// The tasks a query asks for, newest first (tasks created together in
    /// the order they were stored), at most `limit` of them when the limit
    /// is positive and all of them otherwise.
    pub fn list_recent(&self, q: &RecentTaskQuery) -> (r: Vec<Task>)
        ensures
            r@ == listing(self.view(), *q),
    {
        let rows = self.rows();
        let ghost p = listed(*q);
        let mut taken: Vec<Task> = Vec::new();
        let mut i: usize = 0;
        while i < rows.len()
            invariant
                i <= rows@.len(),
                rows@ == self.view(),
                p == listed(*q),
                taken@ == rows@.take(i as int).filter(p),
            decreases rows.len() - i,
        {
            let t = &rows[i];
            proof {
                assert(rows@.take(i + 1) =~= rows@.take(i as int).push(*t));
                rows@.take(i as int).lemma_filter_push(*t, p);
            }
            if lists_task(q, t) {
                taken.push(copy_task(t));
            }
            i += 1;
        }
        proof {
            assert(rows@.take(i as int) =~= rows@);
        }
        let ghost matched = taken@;
        let mut ordered = order_newest_first(taken);
        proof {
            let o = newest_first_order(matched);
            assert(newest_first_of(matched, ordered@));
            law_newest_first_order_unique(matched, o, ordered@);
        }
        match q.limit {
            Some(l) => {
                if l > 0 && (l as u64) < (ordered.len() as u64) {
                    ordered.truncate(l as usize);
                    proof {
                        assert(ordered@ =~= newest_first_order(matched).take(l as int));
                    }
                }
            },
            None => {},
        }
        ordered
    }

    /// The latest tasks, of one manga when one is given: at most `limit` of
    /// them when the limit is positive, all of them otherwise.
    pub fn get_recent(&self, manga_id: Option<u128>, limit: i64) -> (r: Vec<Task>)
        ensures
            r@ == list_cap(
                if limit > 0 { Some(limit) } else { None },
                newest_first_order(self.view().filter(of_manga(manga_id))),
            ),
    {
        let q = RecentTaskQuery {
            manga_id,
            limit: if limit > 0 { Some(limit) } else { None },
            before: None,
            statuses: Vec::new(),
        };
        proof {
            assert(listed(q) =~= of_manga(manga_id));
        }
        self.list_recent(&q)
    }
}

} // verus!
