//! Rows keyed by a provider's name and, for a per-series row, the series id:
//! the shape that the provider score and provider setting tables share.

use vstd::prelude::*;
use crate::text::str_eq;

verus! {

/// One stored row: provider-wide when `manga_id` is `None`, for one series otherwise.
pub struct ProviderEntry<V> {
    pub provider_name: String,
    pub manga_id: Option<u128>,
    pub value: V,
}

/// The key of a row as specifications see it.
pub open spec fn entry_key<V>(e: ProviderEntry<V>) -> (Seq<char>, Option<u128>) {
    (e.provider_name@, e.manga_id)
}

/// The table that a list of rows stands for: a later row for a key replaces
/// an earlier one.
pub open spec fn table_of<V>(rows: Seq<ProviderEntry<V>>) -> Map<(Seq<char>, Option<u128>), V>
    decreases rows.len(),
{
    if rows.len() == 0 {
        Map::empty()
    } else {
        table_of(rows.drop_last()).insert(entry_key(rows.last()), rows.last().value)
    }
}

proof fn lemma_table_push<V>(rows: Seq<ProviderEntry<V>>, e: ProviderEntry<V>)
    ensures
        table_of(rows.push(e)) == table_of(rows).insert(entry_key(e), e.value),
{
    assert(rows.push(e).drop_last() =~= rows);
}

proof fn lemma_table_step<V>(rows: Seq<ProviderEntry<V>>, i: int)
    requires
        0 <= i < rows.len(),
    ensures
        table_of(rows.take(i + 1)) == table_of(rows.take(i)).insert(entry_key(rows[i]), rows[i].value),
{
    assert(rows.take(i + 1) =~= rows.take(i).push(rows[i]));
    lemma_table_push(rows.take(i), rows[i]);
}

/// Every row's key is in the table, and every key of the table is some row's key.
pub proof fn lemma_table_keys<V>(rows: Seq<ProviderEntry<V>>)
    ensures
        forall|i: int| 0 <= i < rows.len() ==> table_of(rows).contains_key(#[trigger] entry_key(rows[i])),
        forall|k: (Seq<char>, Option<u128>)| table_of(rows).contains_key(k) ==> exists|i: int|
            0 <= i < rows.len() && entry_key(#[trigger] rows[i]) == k,
    decreases rows.len(),
{
    if rows.len() > 0 {
        let init = rows.drop_last();
        lemma_table_keys(init);
        assert(table_of(rows) == table_of(init).insert(entry_key(rows.last()), rows.last().value));
        assert forall|i: int| 0 <= i < rows.len() implies table_of(rows).contains_key(
            #[trigger] entry_key(rows[i]),
        ) by {
            if i < rows.len() - 1 {
                assert(init[i] == rows[i]);
            }
        }
        assert forall|k: (Seq<char>, Option<u128>)| table_of(rows).contains_key(k) implies exists|i: int|
            0 <= i < rows.len() && entry_key(#[trigger] rows[i]) == k by {
            if k == entry_key(rows.last()) {
                assert(entry_key(rows[rows.len() - 1]) == k);
            } else {
                let j = choose|j: int| 0 <= j < init.len() && entry_key(#[trigger] init[j]) == k;
                assert(rows[j] == init[j]);
            }
        }
    }
}

/// Whether some string of `v` reads `n`.
pub open spec fn list_has_spec(v: Seq<String>, n: Seq<char>) -> bool {
    exists|i: int| 0 <= i < v.len() && #[trigger] v[i]@ == n
}

/// Whether some string of `v` equals `n`.
pub fn list_has(v: &Vec<String>, n: &str) -> (r: bool)
    ensures
        r == list_has_spec(v@, n@),
{
    let mut i: usize = 0;
    while i < v.len()
        invariant
            i <= v.len(),
            forall|j: int| 0 <= j < i ==> v@[j]@ != n@,
        decreases v.len() - i,
    {
        if str_eq(v[i].as_str(), n) {
            return true;
        }
        i += 1;
    }
    false
}

/// Whether two series ids (or their absence) are the same.
fn same_series(a: Option<u128>, b: Option<u128>) -> (r: bool)
    ensures
        r == (a == b),
{
    match (a, b) {
        (None, None) => true,
        (Some(x), Some(y)) => x == y,
        _ => false,
    }
}

/// Rows keyed by provider and series; the view is the table they stand for.
pub struct ProviderTable<V> {
    rows: Vec<ProviderEntry<V>>,
}

impl<V> View for ProviderTable<V> {
    type V = Map<(Seq<char>, Option<u128>), V>;

    closed spec fn view(&self) -> Map<(Seq<char>, Option<u128>), V> {
        table_of(self.rows@)
    }
}

impl<V> ProviderTable<V> {
    /// An empty table.
    pub fn new() -> (t: Self)
        ensures
            t@ == Map::<(Seq<char>, Option<u128>), V>::empty(),
    {
        ProviderTable { rows: Vec::new() }
    }

    /// The table that stored rows stand for.
    pub fn from_rows(rows: Vec<ProviderEntry<V>>) -> (t: Self)
        ensures
            t@ == table_of(rows@),
    {
        ProviderTable { rows }
    }

    /// Removes the row for `(name, manga_id)`, if there is one.
    pub fn remove(&mut self, name: &str, manga_id: Option<u128>)
        ensures
            final(self)@ == old(self)@.remove((name@, manga_id)),
    {
        let ghost key = (name@, manga_id);
        let mut rest: Vec<ProviderEntry<V>> = Vec::new();
        std::mem::swap(&mut rest, &mut self.rows);
        let ghost orig = rest@;
        assert(orig.len() == rest.len());
        let mut kept: Vec<ProviderEntry<V>> = Vec::new();
        let mut j: usize = 0;
        while rest.len() > 0
            invariant
                key == (name@, manga_id),
                j <= orig.len() <= usize::MAX,
                rest@ == orig.skip(j as int),
                table_of(kept@) == table_of(orig.take(j as int)).remove(key),
            decreases rest.len(),
        {
            proof {
                lemma_table_step(orig, j as int);
            }
            let e = rest.remove(0);
            proof {
                assert(e == orig[j as int]);
                assert(rest@ =~= orig.skip(j + 1));
            }
            if same_series(e.manga_id, manga_id) && str_eq(e.provider_name.as_str(), name) {
                proof {
                    assert(entry_key(e) == key);
                    assert(table_of(orig.take(j + 1)) == table_of(orig.take(j as int)).insert(key, e.value));
                    assert(table_of(orig.take(j + 1)).remove(key) =~= table_of(orig.take(j as int)).remove(key));
                }
            } else {
                proof {
                    assert(entry_key(e) != key);
                    assert(table_of(orig.take(j + 1)) == table_of(orig.take(j as int)).insert(entry_key(e), e.value));
                    lemma_table_push(kept@, e);
                    assert(table_of(kept@.push(e)) =~= table_of(orig.take(j + 1)).remove(key));
                }
                kept.push(e);
            }
            j += 1;
        }
        proof {
            assert(orig.take(j as int) =~= orig);
        }
        self.rows = kept;
    }

    /// Stores `value` for `(name, manga_id)`, replacing any earlier value.
    pub fn put(&mut self, name: &str, manga_id: Option<u128>, value: V)
        ensures
            final(self)@ == old(self)@.insert((name@, manga_id), value),
    {
        self.remove(name, manga_id);
        let e = ProviderEntry { provider_name: name.to_string(), manga_id, value };
        proof {
            lemma_table_push(self.rows@, e);
            assert(old(self)@.remove((name@, manga_id)).insert((name@, manga_id), value) =~= old(self)@.insert(
                (name@, manga_id),
                value,
            ));
        }
        self.rows.push(e);
    }

    /// The providers that have a row for `manga_id` (`None`: a provider-wide
    /// row), each once.
    pub fn names_for(&self, manga_id: Option<u128>) -> (ns: Vec<String>)
        ensures
            forall|i: int, j: int| 0 <= i < j < ns.len() ==> ns[i]@ != ns[j]@,
            forall|n: Seq<char>| self@.contains_key((n, manga_id)) <==> list_has_spec(ns@, n),
    {
        let mut ns: Vec<String> = Vec::new();
        let mut i: usize = 0;
        while i < self.rows.len()
            invariant
                i <= self.rows.len(),
                forall|a: int, b: int| 0 <= a < b < ns.len() ==> ns[a]@ != ns[b]@,
                forall|n: Seq<char>| table_of(self.rows@.take(i as int)).contains_key((n, manga_id)) <==> list_has_spec(ns@, n),
            decreases self.rows.len() - i,
        {
            proof {
                lemma_table_step(self.rows@, i as int);
            }
            let e = &self.rows[i];
            let ghost ns0 = ns@;
            let ghost next = table_of(self.rows@.take(i + 1));
            let pushed = same_series(e.manga_id, manga_id) && !list_has(&ns, e.provider_name.as_str());
            if pushed {
                let ghost before = ns@;
                ns.push(e.provider_name.clone());
                proof {
                    assert forall|n: Seq<char>| list_has_spec(ns@, n) <==> (list_has_spec(before, n) || n == e.provider_name@) by {
                        if list_has_spec(before, n) {
                            let a = choose|a: int| 0 <= a < before.len() && #[trigger] before[a]@ == n;
                            assert(ns@[a] == before[a]);
                        }
                        if n == e.provider_name@ {
                            assert(ns@[ns.len() - 1]@ == n);
                        }
                        if list_has_spec(ns@, n) {
                            let a = choose|a: int| 0 <= a < ns.len() && #[trigger] ns@[a]@ == n;
                            if a < before.len() {
                                assert(before[a] == ns@[a]);
                            }
                        }
                    }
                }
            }
            proof {
                assert forall|n: Seq<char>| next.contains_key((n, manga_id)) <==> list_has_spec(ns@, n) by {
                    if (n, manga_id) == entry_key(*e) {
                        assert(next.contains_key((n, manga_id)));
                        if !pushed {
                            assert(ns@ == ns0);
                            assert(list_has_spec(ns0, e.provider_name@));
                        }
                        assert(list_has_spec(ns@, n));
                    } else {
                        assert(next.contains_key((n, manga_id)) == table_of(self.rows@.take(i as int)).contains_key((n, manga_id)));
                        assert(table_of(self.rows@.take(i as int)).contains_key((n, manga_id)) <==> list_has_spec(ns0, n));
                        if !pushed {
                            assert(ns@ == ns0);
                        } else {
                            assert(n != e.provider_name@);
                            assert(list_has_spec(ns@, n) <==> list_has_spec(ns0, n));
                        }
                    }
                }
            }
            i += 1;
        }
        proof {
            assert(self.rows@.take(self.rows.len() as int) =~= self.rows@);
        }
        ns
    }
}

impl<V: Copy> ProviderTable<V> {
    /// The value stored for `(name, manga_id)`.
    pub fn get(&self, name: &str, manga_id: Option<u128>) -> (r: Option<V>)
        ensures
            r == self@.get((name@, manga_id)),
    {
        let mut r: Option<V> = None;
        let mut i: usize = 0;
        while i < self.rows.len()
            invariant
                i <= self.rows.len(),
                r == table_of(self.rows@.take(i as int)).get((name@, manga_id)),
            decreases self.rows.len() - i,
        {
            proof {
                lemma_table_step(self.rows@, i as int);
            }
            let e = &self.rows[i];
            if same_series(e.manga_id, manga_id) && str_eq(e.provider_name.as_str(), name) {
                r = Some(e.value);
            }
            i += 1;
        }
        proof {
            assert(self.rows@.take(self.rows.len() as int) =~= self.rows@);
        }
        r
    }
}

impl ProviderTable<String> {
    /// The text stored for `(name, manga_id)`, as its view.
    pub fn get_text(&self, name: &str, manga_id: Option<u128>) -> (r: Option<String>)
        ensures
            r == self@.get((name@, manga_id)),
    {
        let mut r: Option<String> = None;
        let mut i: usize = 0;
        while i < self.rows.len()
            invariant
                i <= self.rows.len(),
                r == table_of(self.rows@.take(i as int)).get((name@, manga_id)),
            decreases self.rows.len() - i,
        {
            proof {
                lemma_table_step(self.rows@, i as int);
            }
            let e = &self.rows[i];
            if same_series(e.manga_id, manga_id) && str_eq(e.provider_name.as_str(), name) {
                r = Some(e.value.clone());
            }
            i += 1;
        }
        proof {
            assert(self.rows@.take(self.rows.len() as int) =~= self.rows@);
        }
        r
    }
}

} // verus!
