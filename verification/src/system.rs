//! System information: the process tree whose memory is reported, and the
//! shape of the report.

use vstd::prelude::*;

verus! {

/// What the system endpoint reports.
#[derive(Debug)]
pub struct SystemInfo {
    /// Resident memory of this process and all its descendants, in MB.
    pub process_mem_mb: u64,
    pub db_manga_count: i64,
    pub db_chapter_count: i64,
    pub db_downloaded_count: i64,
    pub tasks_pending: i64,
    pub tasks_running: i64,
    pub queue_paused: bool,
}

/// A process and its direct children.
#[derive(Debug)]
pub struct ProcessChildren {
    pub pid: u32,
    pub children: Vec<u32>,
}

/// The children listed for a process (the first listing), or none.
pub open spec fn kids_of(map: Seq<ProcessChildren>, p: u32) -> Seq<u32>
    decreases map.len(),
{
    if map.len() == 0 {
        Seq::empty()
    } else if map[0].pid == p {
        map[0].children@
    } else {
        kids_of(map.drop_first(), p)
    }
}

/// Every child listed anywhere.
pub open spec fn listed_children(map: Seq<ProcessChildren>) -> Seq<u32>
    decreases map.len(),
{
    if map.len() == 0 {
        Seq::empty()
    } else {
        map[0].children@ + listed_children(map.drop_first())
    }
}

/// A chain of processes, each a child of the one before.
pub open spec fn is_chain(map: Seq<ProcessChildren>, path: Seq<u32>) -> bool {
    &&& path.len() > 0
    &&& forall|i: int| 0 <= i < path.len() - 1 ==> kids_of(map, #[trigger] path[i]).contains(path[i + 1])
}

/// Whether `p` descends from `root` (or is it).
pub open spec fn descends(map: Seq<ProcessChildren>, root: u32, p: u32) -> bool {
    exists|path: Seq<u32>| is_chain(map, path) && path[0] == root && path.last() == p
}

proof fn lemma_kids_listed(map: Seq<ProcessChildren>, p: u32, k: u32)
    requires
        kids_of(map, p).contains(k),
    ensures
        listed_children(map).contains(k),
    decreases map.len(),
{
    if map.len() > 0 {
        let l = listed_children(map);
        if map[0].pid == p {
            let j = choose|j: int| 0 <= j < map[0].children@.len() && map[0].children@[j] == k;
            assert(l[j] == k);
        } else {
            lemma_kids_listed(map.drop_first(), p, k);
            let rest = listed_children(map.drop_first());
            let j = choose|j: int| 0 <= j < rest.len() && rest[j] == k;
            assert(l[map[0].children@.len() + j] == k);
        }
    }
}

fn kids_index(map: &Vec<ProcessChildren>, p: u32) -> (r: Option<usize>)
    ensures
        match r {
            Some(i) => i < map@.len() && kids_of(map@, p) == map@[i as int].children@,
            None => kids_of(map@, p) == Seq::<u32>::empty(),
        },
{
    let mut i: usize = 0;
    assert(map@.skip(0) =~= map@);
    while i < map.len()
        invariant
            i <= map@.len(),
            kids_of(map@, p) == kids_of(map@.skip(i as int), p),
        decreases map.len() - i,
    {
        proof {
            assert(map@.skip(i as int).drop_first() =~= map@.skip(i + 1));
            assert(map@.skip(i as int)[0] == map@[i as int]);
        }
        if map[i].pid == p {
            return Some(i);
        }
        i = i + 1;
    }
    None
}

fn contains_pid(v: &Vec<u32>, x: u32) -> (r: bool)
    ensures
        r == v@.contains(x),
{
    let mut i: usize = 0;
    while i < v.len()
        invariant
            i <= v@.len(),
            forall|j: int| 0 <= j < i ==> v@[j] != x,
        decreases v.len() - i,
    {
        if v[i] == x {
            assert(v@[i as int] == x);
            return true;
        }
        i = i + 1;
    }
    false
}

proof fn lemma_bounded_by_universe(out: Seq<u32>, u: Seq<u32>)
    requires
        out.no_duplicates(),
        forall|j: int| 0 <= j < out.len() ==> u.contains(#[trigger] out[j]),
    ensures
        out.len() <= u.len(),
{
    out.unique_seq_to_set();
    u.lemma_cardinality_of_set();
    assert(out.to_set().subset_of(u.to_set())) by {
        assert forall|x: u32| out.to_set().contains(x) implies u.to_set().contains(x) by {
            let j = choose|j: int| 0 <= j < out.len() && out[j] == x;
        }
    }
    vstd::set_lib::lemma_len_subset(out.to_set(), u.to_set());
}

/// The process `root` and all its descendants, each once, `root` first: a set
/// that holds every child of each of its members, and nothing else.
pub fn collect_process_tree(root: u32, map: &Vec<ProcessChildren>) -> (r: Vec<u32>)
    ensures
        r@.len() > 0,
        r@[0] == root,
        r@.no_duplicates(),
        forall|j: int| 0 <= j < r@.len() ==> descends(map@, root, #[trigger] r@[j]),
        forall|j: int, k: u32| #![trigger kids_of(map@, r@[j]).contains(k)] 0 <= j < r@.len() && kids_of(map@, r@[j]).contains(k) ==> r@.contains(k),
{
    let ghost u = seq![root] + listed_children(map@);
    let mut out: Vec<u32> = Vec::new();
    out.push(root);
    proof {
        let path = seq![root];
        assert(is_chain(map@, path));
        assert(path[0] == root && path.last() == root);
        assert(descends(map@, root, root));
        assert(out@[0] == root);
        assert(u[0] == root);
    }
    let mut i: usize = 0;
    while i < out.len()
        invariant
            u == seq![root] + listed_children(map@),
            out@.len() > 0,
            out@[0] == root,
            out@.no_duplicates(),
            i <= out@.len() <= u.len(),
            forall|j: int| 0 <= j < out@.len() ==> u.contains(#[trigger] out@[j]),
            forall|j: int| 0 <= j < out@.len() ==> descends(map@, root, #[trigger] out@[j]),
            forall|j: int, k: u32| #![trigger kids_of(map@, out@[j]).contains(k)] 0 <= j < i && kids_of(map@, out@[j]).contains(k) ==> out@.contains(k),
        decreases u.len() - i,
    {
        let p = out[i];
        if let Some(ix) = kids_index(map, p) {
            let kids = &map[ix].children;
            let ghost before = out@;
            let mut k: usize = 0;
            while k < kids.len()
                invariant
                    u == seq![root] + listed_children(map@),
                    i < out@.len(),
                    out@[i as int] == p,
                    kids@ == kids_of(map@, p),
                    k <= kids@.len(),
                    out@.len() > 0,
                    out@[0] == root,
                    out@.no_duplicates(),
                    out@.len() <= u.len(),
                    forall|j: int| 0 <= j < before.len() ==> out@[j] == before[j],
                    before.len() <= out@.len(),
                    forall|j: int| 0 <= j < out@.len() ==> u.contains(#[trigger] out@[j]),
                    forall|j: int| 0 <= j < out@.len() ==> descends(map@, root, #[trigger] out@[j]),
                    forall|j: int, c: u32| #![trigger kids_of(map@, before[j]).contains(c)] 0 <= j < i && kids_of(map@, before[j]).contains(c) ==> before.contains(c),
                    forall|m: int| 0 <= m < k ==> out@.contains(#[trigger] kids@[m]),
                decreases kids.len() - k,
            {
                let c = kids[k];
                if !contains_pid(&out, c) {
                    let ghost prev = out@;
                    proof {
                        assert(kids_of(map@, p).contains(c));
                        lemma_kids_listed(map@, p, c);
                        let lj = choose|lj: int| 0 <= lj < listed_children(map@).len() && listed_children(map@)[lj] == c;
                        assert(u[lj + 1] == c);
                        assert(descends(map@, root, prev[i as int]));
                        let path = choose|path: Seq<u32>| is_chain(map@, path) && path[0] == root && path.last() == p;
                        let path2 = path.push(c);
                        assert forall|m: int| 0 <= m < path2.len() - 1 implies kids_of(map@, #[trigger] path2[m]).contains(path2[m + 1]) by {
                            if m < path.len() - 1 {
                                assert(path2[m] == path[m] && path2[m + 1] == path[m + 1]);
                            } else {
                                assert(path2[m] == p && path2[m + 1] == c);
                            }
                        }
                        assert(is_chain(map@, path2) && path2[0] == root && path2.last() == c);
                    }
                    out.push(c);
                    proof {
                        assert forall|a: int, b: int| 0 <= a < out@.len() && 0 <= b < out@.len() && a != b implies out@[a] != out@[b] by {
                            if a < prev.len() && b < prev.len() {
                                assert(out@[a] == prev[a] && out@[b] == prev[b]);
                            } else if a == prev.len() {
                                assert(out@[b] == prev[b]);
                            } else {
                                assert(out@[a] == prev[a]);
                            }
                        }
                        assert forall|j: int| 0 <= j < out@.len() implies u.contains(#[trigger] out@[j]) by {
                            if j < prev.len() {
                                assert(out@[j] == prev[j]);
                            }
                        }
                        assert forall|j: int| 0 <= j < out@.len() implies descends(map@, root, #[trigger] out@[j]) by {
                            if j < prev.len() {
                                assert(out@[j] == prev[j]);
                            }
                        }
                        lemma_bounded_by_universe(out@, u);
                        assert forall|m: int| 0 <= m < k + 1 implies out@.contains(#[trigger] kids@[m]) by {
                            if m < k {
                                assert(prev.contains(kids@[m]));
                                let w = choose|w: int| 0 <= w < prev.len() && prev[w] == kids@[m];
                                assert(out@[w] == kids@[m]);
                            } else {
                                assert(out@[prev.len() as int] == c);
                            }
                        }
                    }
                }
                k = k + 1;
            }
            proof {
                assert forall|j: int, c: u32| #![trigger kids_of(map@, out@[j]).contains(c)] 0 <= j < i + 1 && kids_of(map@, out@[j]).contains(c) implies out@.contains(c) by {
                    if j < i {
                        assert(out@[j] == before[j]);
                        assert(before.contains(c));
                        let w = choose|w: int| 0 <= w < before.len() && before[w] == c;
                        assert(out@[w] == c);
                    } else {
                        let m = choose|m: int| 0 <= m < kids@.len() && kids@[m] == c;
                        assert(out@.contains(kids@[m]));
                    }
                }
            }
        }
        i = i + 1;
    }
    out
}

/// The sum of a list of numbers.
pub open spec fn total(s: Seq<u64>) -> nat
    decreases s.len(),
{
    if s.len() == 0 {
        0
    } else {
        total(s.drop_last()) + s.last() as nat
    }
}

/// Memory in MB from the resident sizes of processes in kB.
pub fn process_memory_mb(rss_kb: &Vec<u64>) -> (r: u64)
    requires
        total(rss_kb@) <= u64::MAX,
    ensures
        r == total(rss_kb@) / 1024,
{
    let mut sum: u64 = 0;
    let mut i: usize = 0;
    while i < rss_kb.len()
        invariant
            i <= rss_kb@.len(),
            sum == total(rss_kb@.take(i as int)),
            total(rss_kb@) <= u64::MAX,
        decreases rss_kb.len() - i,
    {
        proof {
            assert(rss_kb@.take(i + 1).drop_last() =~= rss_kb@.take(i as int));
            lemma_total_prefix(rss_kb@, i + 1);
        }
        sum = sum + rss_kb[i];
        i = i + 1;
    }
    assert(rss_kb@.take(rss_kb@.len() as int) =~= rss_kb@);
    sum / 1024
}

proof fn lemma_total_prefix(s: Seq<u64>, n: int)
    requires
        0 <= n <= s.len(),
    ensures
        total(s.take(n)) <= total(s),
    decreases s.len() - n,
{
    if n < s.len() {
        lemma_total_prefix(s, n + 1);
        assert(s.take(n + 1).drop_last() =~= s.take(n));
    } else {
        assert(s.take(n) =~= s);
    }
}

} // verus!
