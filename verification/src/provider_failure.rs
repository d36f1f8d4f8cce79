//! Provider failures: each failed sync of a provider for a series is recorded
//! with its time; the failures within the backoff window count, and a
//! provider with as many of them as the threshold is disabled for the series.

use vstd::prelude::*;
use crate::text::{opt_view, parse_i64, parse_i64_spec, str_eq, str_opt_view};

verus! {

/// The threshold used when none is stored or it does not read as a number.
pub const DEFAULT_DISABLE_THRESHOLD: i64 = 5;

/// The backoff window, in minutes, used when none is stored or it does not
/// read as a number.
pub const DEFAULT_BACKOFF_MINUTES: i64 = 60;

/// One recorded failure.
#[derive(Debug)]
pub struct ProviderFailure {
    pub provider_name: String,
    pub manga_id: u128,
    /// Unix time of the failure, in seconds.
    pub failed_at: i64,
    pub error_message: Option<String>,
}

/// The recorded failures, oldest first.
#[derive(Debug)]
pub struct ProviderFailures {
    pub rows: Vec<ProviderFailure>,
}

/// The start of the backoff window that ends at `now`.
pub open spec fn window_start_spec(now: i64, backoff_minutes: i64) -> int {
    now - backoff_minutes * 60
}

/// Whether a window start can be computed without overflow.
pub open spec fn window_fits(now: i64, backoff_minutes: i64) -> bool {
    &&& i64::MIN <= backoff_minutes * 60 <= i64::MAX
    &&& i64::MIN <= window_start_spec(now, backoff_minutes) <= i64::MAX
}

/// Whether a failure is one of the provider's failures for the series at or
/// after `start`.
pub open spec fn counts_for(f: ProviderFailure, name: Seq<char>, manga_id: u128, start: int) -> bool {
    f.provider_name@ == name && f.manga_id == manga_id && f.failed_at >= start
}

/// How many failures of the provider for the series fall at or after `start`.
pub open spec fn recent_count(s: Seq<ProviderFailure>, name: Seq<char>, manga_id: u128, start: int) -> nat
    decreases s.len(),
{
    if s.len() == 0 {
        0
    } else {
        recent_count(s.drop_last(), name, manga_id, start) + if counts_for(s.last(), name, manga_id, start) {
            1nat
        } else {
            0nat
        }
    }
}

/// The first instant whose failures count as consecutive: just after the last
/// successful sync, or any instant when there was none.
pub open spec fn since_sync(last_synced_at: Option<i64>) -> int {
    match last_synced_at {
        Some(t) => t + 1,
        None => i64::MIN as int,
    }
}

/// How many failures of the provider, for any series, fall at or after `start`.
pub open spec fn provider_recent_count(s: Seq<ProviderFailure>, name: Seq<char>, start: int) -> nat
    decreases s.len(),
{
    if s.len() == 0 {
        0
    } else {
        provider_recent_count(s.drop_last(), name, start) + if s.last().provider_name@ == name && s.last().failed_at >= start {
            1nat
        } else {
            0nat
        }
    }
}

/// The series for which the provider failed at or after `start`.
pub open spec fn affected_series(s: Seq<ProviderFailure>, name: Seq<char>, start: int) -> Set<u128> {
    Set::new(|m: u128| exists|i: int| 0 <= i < s.len() && #[trigger] s[i].manga_id == m && s[i].provider_name@ == name && s[i].failed_at >= start)
}

/// The value a stored setting gives: the stored text read as a number, else `default`.
pub open spec fn setting_value(raw: Option<Seq<char>>, default: i64) -> int {
    match raw {
        Some(s) => match parse_i64_spec(s) {
            Some(v) => v,
            None => default as int,
        },
        None => default as int,
    }
}

/// The start of the backoff window that ends at `now`.
pub fn window_start(now: i64, backoff_minutes: i64) -> (r: i64)
    requires
        window_fits(now, backoff_minutes),
    ensures
        r == window_start_spec(now, backoff_minutes),
{
    now - backoff_minutes * 60
}

/// A stored numeric setting, or `default` when it is missing or does not read
/// as a number.
pub fn setting_or(raw: Option<&str>, default: i64) -> (r: i64)
    ensures
        r == setting_value(str_opt_view(raw), default),
{
    match raw {
        Some(s) => match parse_i64(s) {
            Some(v) => v,
            None => default,
        },
        None => default,
    }
}

impl ProviderFailures {
    /// No recorded failures.
    pub fn new() -> (r: Self)
        ensures
            r.rows@ == Seq::<ProviderFailure>::empty(),
    {
        ProviderFailures { rows: Vec::new() }
    }

    /// Records a failure of the provider for the series at `now`.
    pub fn record(&mut self, provider_name: &str, manga_id: u128, error_message: Option<&str>, now: i64)
        ensures
            final(self).rows.len() == old(self).rows.len() + 1,
            forall|i: int| 0 <= i < old(self).rows.len() ==> final(self).rows[i] == old(self).rows[i],
            final(self).rows@.last().provider_name@ == provider_name@,
            final(self).rows@.last().manga_id == manga_id,
            final(self).rows@.last().failed_at == now,
            opt_view(final(self).rows@.last().error_message) == str_opt_view(error_message),
    {
        let error_message = match error_message {
            Some(e) => Some(e.to_string()),
            None => None,
        };
        self.rows.push(ProviderFailure { provider_name: provider_name.to_string(), manga_id, failed_at: now, error_message });
    }

    /// How many consecutive failures the provider has for the series: those
    /// after its last successful sync, or all of them when it was never synced.
    pub fn consecutive_failures(&self, provider_name: &str, manga_id: u128, last_synced_at: Option<i64>) -> (r: usize)
        ensures
            r == recent_count(self.rows@, provider_name@, manga_id, since_sync(last_synced_at)),
    {
        let mut n: usize = 0;
        let mut i: usize = 0;
        while i < self.rows.len()
            invariant
                i <= self.rows.len(),
                n == recent_count(self.rows@.take(i as int), provider_name@, manga_id, since_sync(last_synced_at)),
                n <= i,
            decreases self.rows.len() - i,
        {
            proof {
                assert(self.rows@.take(i + 1).drop_last() =~= self.rows@.take(i as int));
            }
            let f = &self.rows[i];
            let after_sync = match last_synced_at {
                Some(t) => f.failed_at > t,
                None => true,
            };
            if f.manga_id == manga_id && after_sync && str_eq(f.provider_name.as_str(), provider_name) {
                n += 1;
            }
            i += 1;
        }
        proof {
            assert(self.rows@.take(self.rows.len() as int) =~= self.rows@);
        }
        n
    }

    /// How many failures of the provider for the series fall at or after `start`.
    fn count_since(&self, provider_name: &str, manga_id: u128, start: i64) -> (r: usize)
        ensures
            r == recent_count(self.rows@, provider_name@, manga_id, start as int),
    {
        let mut n: usize = 0;
        let mut i: usize = 0;
        while i < self.rows.len()
            invariant
                i <= self.rows.len(),
                n == recent_count(self.rows@.take(i as int), provider_name@, manga_id, start as int),
                n <= i,
            decreases self.rows.len() - i,
        {
            proof {
                assert(self.rows@.take(i + 1).drop_last() =~= self.rows@.take(i as int));
            }
            let f = &self.rows[i];
            if f.manga_id == manga_id && f.failed_at >= start && str_eq(f.provider_name.as_str(), provider_name) {
                n += 1;
            }
            i += 1;
        }
        proof {
            assert(self.rows@.take(self.rows.len() as int) =~= self.rows@);
        }
        n
    }

    /// Whether the provider is disabled for the series: its consecutive
    /// failures (since its last successful sync) reach the threshold, which
    /// comes from a stored setting with a default of 5.
    pub fn is_auto_disabled(
        &self,
        provider_name: &str,
        manga_id: u128,
        threshold_setting: Option<&str>,
        last_synced_at: Option<i64>,
    ) -> (r: bool)
        ensures
            r == (recent_count(self.rows@, provider_name@, manga_id, since_sync(last_synced_at))
                >= setting_value(str_opt_view(threshold_setting), DEFAULT_DISABLE_THRESHOLD)),
    {
        let threshold = setting_or(threshold_setting, DEFAULT_DISABLE_THRESHOLD);
        let failures = self.consecutive_failures(provider_name, manga_id, last_synced_at);
        failures as i128 >= threshold as i128
    }

    /// For the provider over the backoff window that ends at `now`: how many
    /// failures there were, for how many series, and the time of the oldest.
    pub fn provider_stats(&self, provider_name: &str, backoff_minutes: i64, now: i64) -> (r: (usize, usize, Option<i64>))
        requires
            window_fits(now, backoff_minutes),
        ensures
            r.0 == provider_recent_count(self.rows@, provider_name@, window_start_spec(now, backoff_minutes)),
            r.1 == affected_series(self.rows@, provider_name@, window_start_spec(now, backoff_minutes)).len(),
            match r.2 {
                Some(t) => (exists|i: int| 0 <= i < self.rows.len() && #[trigger] self.rows[i].failed_at == t
                    && self.rows[i].provider_name@ == provider_name@ && t >= window_start_spec(now, backoff_minutes))
                    && forall|i: int| 0 <= i < self.rows.len() && self.rows[i].provider_name@ == provider_name@
                    && #[trigger] self.rows[i].failed_at >= window_start_spec(now, backoff_minutes) ==> t <= self.rows[i].failed_at,
                None => r.0 == 0,
            },
    {
        let start = window_start(now, backoff_minutes);
        let ghost s = self.rows@;
        let mut total: usize = 0;
        let mut series: Vec<u128> = Vec::new();
        let mut oldest: Option<i64> = None;
        let mut i: usize = 0;
        while i < self.rows.len()
            invariant
                i <= self.rows.len(),
                s == self.rows@,
                total <= i,
                total == provider_recent_count(s.take(i as int), provider_name@, start as int),
                series@.no_duplicates(),
                series@.to_set() == affected_series(s.take(i as int), provider_name@, start as int),
                match oldest {
                    Some(t) => (exists|j: int| 0 <= j < i && #[trigger] s[j].failed_at == t && s[j].provider_name@ == provider_name@
                        && t >= start)
                        && forall|j: int| 0 <= j < i && s[j].provider_name@ == provider_name@ && #[trigger] s[j].failed_at >= start
                        ==> t <= s[j].failed_at,
                    None => total == 0 && forall|j: int| 0 <= j < i ==> !(s[j].provider_name@ == provider_name@ && #[trigger] s[j].failed_at >= start),
                },
            decreases self.rows.len() - i,
        {
            proof {
                assert(s.take(i + 1).drop_last() =~= s.take(i as int));
            }
            let f = &self.rows[i];
            let ghost before = series@;
            if f.failed_at >= start && str_eq(f.provider_name.as_str(), provider_name) {
                total += 1;
                let mut known = false;
                let mut k: usize = 0;
                while k < series.len()
                    invariant
                        k <= series.len(),
                        known <==> exists|c: int| 0 <= c < k && series@[c] == f.manga_id,
                    decreases series.len() - k,
                {
                    if series[k] == f.manga_id {
                        known = true;
                    }
                    k += 1;
                }
                if !known {
                    series.push(f.manga_id);
                    proof {
                        assert forall|a: int, b: int| 0 <= a < b < series.len() implies series@[a] != series@[b] by {
                            if b == series.len() - 1 {
                                assert(series@[a] == before[a]);
                            }
                        }
                    }
                }
                proof {
                    assert(series@.to_set() =~= affected_series(s.take(i + 1), provider_name@, start as int)) by {
                        assert forall|m: u128| series@.to_set().contains(m) implies affected_series(s.take(i + 1), provider_name@, start as int).contains(m) by {
                            if m != f.manga_id {
                                let c = choose|c: int| 0 <= c < series.len() && series@[c] == m;
                                assert(before.contains(m)) by {
                                    assert(c < before.len());
                                    assert(before[c] == m);
                                }
                                assert(affected_series(s.take(i as int), provider_name@, start as int).contains(m));
                                let j = choose|j: int| 0 <= j < i && #[trigger] s.take(i as int)[j].manga_id == m
                                    && s.take(i as int)[j].provider_name@ == provider_name@ && s.take(i as int)[j].failed_at >= start;
                                assert(s.take(i + 1)[j] == s.take(i as int)[j]);
                            } else {
                                assert(s.take(i + 1)[i as int].manga_id == m);
                            }
                        }
                        assert forall|m: u128| affected_series(s.take(i + 1), provider_name@, start as int).contains(m) implies series@.to_set().contains(m) by {
                            let j = choose|j: int| 0 <= j < i + 1 && #[trigger] s.take(i + 1)[j].manga_id == m
                                && s.take(i + 1)[j].provider_name@ == provider_name@ && s.take(i + 1)[j].failed_at >= start;
                            if j < i {
                                assert(s.take(i as int)[j] == s.take(i + 1)[j]);
                                assert(affected_series(s.take(i as int), provider_name@, start as int).contains(m));
                                assert(before.contains(m));
                                let c = choose|c: int| 0 <= c < before.len() && before[c] == m;
                                assert(series@[c] == m);
                            } else if known {
                                let c = choose|c: int| 0 <= c < series.len() && series@[c] == m;
                            } else {
                                assert(series@[series.len() - 1] == m);
                            }
                        }
                    }
                }
                let ghost prev = oldest;
                match oldest {
                    Some(t) => {
                        if f.failed_at < t {
                            oldest = Some(f.failed_at);
                        }
                    },
                    None => {
                        oldest = Some(f.failed_at);
                    },
                }
                proof {
                    let t = oldest.unwrap();
                    if t == f.failed_at {
                        assert(s[i as int].failed_at == t);
                    } else {
                        let j = choose|j: int| 0 <= j < i && #[trigger] s[j].failed_at == prev.unwrap() && s[j].provider_name@ == provider_name@
                            && prev.unwrap() >= start;
                        assert(s[j].failed_at == t);
                    }
                }
            } else {
                proof {
                    assert(affected_series(s.take(i + 1), provider_name@, start as int) =~= affected_series(s.take(i as int), provider_name@, start as int)) by {
                        assert forall|m: u128| affected_series(s.take(i + 1), provider_name@, start as int).contains(m) implies affected_series(s.take(i as int), provider_name@, start as int).contains(m) by {
                            let j = choose|j: int| 0 <= j < i + 1 && #[trigger] s.take(i + 1)[j].manga_id == m
                                && s.take(i + 1)[j].provider_name@ == provider_name@ && s.take(i + 1)[j].failed_at >= start;
                            assert(j < i);
                            assert(s.take(i as int)[j] == s.take(i + 1)[j]);
                        }
                        assert forall|m: u128| affected_series(s.take(i as int), provider_name@, start as int).contains(m) implies affected_series(s.take(i + 1), provider_name@, start as int).contains(m) by {
                            let j = choose|j: int| 0 <= j < i && #[trigger] s.take(i as int)[j].manga_id == m
                                && s.take(i as int)[j].provider_name@ == provider_name@ && s.take(i as int)[j].failed_at >= start;
                            assert(s.take(i + 1)[j] == s.take(i as int)[j]);
                        }
                    }
                }
            }
            i += 1;
        }
        proof {
            assert(s.take(s.len() as int) =~= s);
            series@.unique_seq_to_set();
        }
        (total, series.len(), oldest)
    }

    /// Removes every failure of the provider for the series, resetting its
    /// count; returns how many were removed.
    pub fn clear_for_manga(&mut self, provider_name: &str, manga_id: u128) -> (removed: usize)
        ensures
            final(self).rows@ == old(self).rows@.filter(|f: ProviderFailure| !(f.provider_name@ == provider_name@ && f.manga_id == manga_id)),
            removed == old(self).rows.len() - final(self).rows.len(),
    {
        let ghost pred = |f: ProviderFailure| !(f.provider_name@ == provider_name@ && f.manga_id == manga_id);
        let mut rest: Vec<ProviderFailure> = Vec::new();
        std::mem::swap(&mut rest, &mut self.rows);
        let ghost orig = rest@;
        assert(orig.len() == rest.len());
        let mut kept: Vec<ProviderFailure> = Vec::new();
        let mut j: usize = 0;
        let mut removed: usize = 0;
        while rest.len() > 0
            invariant
                pred == (|f: ProviderFailure| !(f.provider_name@ == provider_name@ && f.manga_id == manga_id)),
                j <= orig.len() <= usize::MAX,
                rest@ == orig.skip(j as int),
                kept@ == orig.take(j as int).filter(pred),
                removed + kept.len() == j,
            decreases rest.len(),
        {
            let f = rest.remove(0);
            proof {
                assert(f == orig[j as int]);
                assert(rest@ =~= orig.skip(j + 1));
                assert(orig.take(j + 1).drop_last() =~= orig.take(j as int));
                reveal(Seq::filter);
            }
            if f.manga_id == manga_id && str_eq(f.provider_name.as_str(), provider_name) {
                removed += 1;
            } else {
                kept.push(f);
            }
            j += 1;
        }
        proof {
            assert(orig.take(j as int) =~= orig);
        }
        self.rows = kept;
        removed
    }

    /// Removes every failure older than the backoff window that ends at
    /// `now`, for all providers; returns how many were removed. The backoff
    /// comes from its stored setting, with a default of 60 minutes.
    pub fn cleanup_old(&mut self, backoff_setting: Option<&str>, now: i64) -> (removed: usize)
        requires
            window_fits(now, setting_value(str_opt_view(backoff_setting), DEFAULT_BACKOFF_MINUTES) as i64),
        ensures
            final(self).rows@ == old(self).rows@.filter(
                |f: ProviderFailure| f.failed_at >= window_start_spec(now, setting_value(str_opt_view(backoff_setting), DEFAULT_BACKOFF_MINUTES) as i64),
            ),
            removed == old(self).rows.len() - final(self).rows.len(),
    {
        let backoff = setting_or(backoff_setting, DEFAULT_BACKOFF_MINUTES);
        let start = window_start(now, backoff);
        let ghost pred = |f: ProviderFailure| f.failed_at >= start;
        let mut rest: Vec<ProviderFailure> = Vec::new();
        std::mem::swap(&mut rest, &mut self.rows);
        let ghost orig = rest@;
        assert(orig.len() == rest.len());
        let mut kept: Vec<ProviderFailure> = Vec::new();
        let mut j: usize = 0;
        let mut removed: usize = 0;
        while rest.len() > 0
            invariant
                pred == (|f: ProviderFailure| f.failed_at >= start),
                j <= orig.len() <= usize::MAX,
                rest@ == orig.skip(j as int),
                kept@ == orig.take(j as int).filter(pred),
                removed + kept.len() == j,
            decreases rest.len(),
        {
            let f = rest.remove(0);
            proof {
                assert(f == orig[j as int]);
                assert(rest@ =~= orig.skip(j + 1));
                assert(orig.take(j + 1).drop_last() =~= orig.take(j as int));
                reveal(Seq::filter);
            }
            if f.failed_at >= start {
                kept.push(f);
            } else {
                removed += 1;
            }
            j += 1;
        }
        proof {
            assert(orig.take(j as int) =~= orig);
        }
        self.rows = kept;
        removed
    }

    /// For the provider and series over the backoff window that ends at `now`:
    /// how many failures there were, the error of the latest, and its time.
    pub fn failure_info(&self, provider_name: &str, manga_id: u128, backoff_minutes: i64, now: i64) -> (r: (usize, Option<String>, Option<i64>))
        requires
            window_fits(now, backoff_minutes),
        ensures
            r.0 == recent_count(self.rows@, provider_name@, manga_id, window_start_spec(now, backoff_minutes)),
            match r.2 {
                Some(t) => exists|i: int| 0 <= i < self.rows.len() && counts_for(#[trigger] self.rows[i], provider_name@, manga_id, window_start_spec(now, backoff_minutes))
                    && self.rows[i].failed_at == t && opt_view(r.1) == opt_view(self.rows[i].error_message)
                    && forall|j: int| 0 <= j < self.rows.len() && counts_for(#[trigger] self.rows[j], provider_name@, manga_id, window_start_spec(now, backoff_minutes))
                    ==> self.rows[j].failed_at <= t,
                None => r.0 == 0 && r.1 is None,
            },
    {
        let start = window_start(now, backoff_minutes);
        let ghost s = self.rows@;
        let ghost st = start as int;
        let count = self.count_since(provider_name, manga_id, start);
        let mut latest: Option<usize> = None;
        let mut i: usize = 0;
        while i < self.rows.len()
            invariant
                i <= self.rows.len(),
                s == self.rows@,
                st == start as int,
                match latest {
                    Some(w) => w < i && counts_for(s[w as int], provider_name@, manga_id, st)
                        && forall|j: int| 0 <= j < i && counts_for(#[trigger] s[j], provider_name@, manga_id, st) ==> s[j].failed_at <= s[w as int].failed_at,
                    None => forall|j: int| 0 <= j < i ==> !counts_for(#[trigger] s[j], provider_name@, manga_id, st),
                },
            decreases self.rows.len() - i,
        {
            let f = &self.rows[i];
            if f.manga_id == manga_id && f.failed_at >= start && str_eq(f.provider_name.as_str(), provider_name) {
                match latest {
                    Some(w) => {
                        if f.failed_at > self.rows[w].failed_at {
                            latest = Some(i);
                        }
                    },
                    None => {
                        latest = Some(i);
                    },
                }
            }
            i += 1;
        }
        match latest {
            Some(w) => {
                let e = match &self.rows[w].error_message {
                    Some(m) => Some(m.clone()),
                    None => None,
                };
                (count, e, Some(self.rows[w].failed_at))
            },
            None => {
                proof {
                    lemma_no_recent_count(s, provider_name@, manga_id, st);
                }
                (count, None, None)
            },
        }
    }
}

proof fn lemma_no_recent_count(s: Seq<ProviderFailure>, name: Seq<char>, manga_id: u128, start: int)
    requires
        forall|j: int| 0 <= j < s.len() ==> !counts_for(#[trigger] s[j], name, manga_id, start),
    ensures
        recent_count(s, name, manga_id, start) == 0,
    decreases s.len(),
{
    if s.len() > 0 {
        let init = s.drop_last();
        assert forall|j: int| 0 <= j < init.len() implies !counts_for(#[trigger] init[j], name, manga_id, start) by {
            assert(init[j] == s[j]);
        }
        lemma_no_recent_count(init, name, manga_id, start);
        assert(!counts_for(s[s.len() - 1], name, manga_id, start));
    }
}

proof fn lemma_recent_count_filtered(s: Seq<ProviderFailure>, name: Seq<char>, manga_id: u128, start: int, cut: int)
    requires
        cut <= start,
    ensures
        recent_count(s.filter(|f: ProviderFailure| f.failed_at >= cut), name, manga_id, start) == recent_count(s, name, manga_id, start),
    decreases s.len(),
{
    reveal(Seq::filter);
    if s.len() > 0 {
        let init = s.drop_last();
        lemma_recent_count_filtered(init, name, manga_id, start, cut);
        let p = |f: ProviderFailure| f.failed_at >= cut;
        if p(s.last()) {
            assert(s.filter(p).drop_last() =~= init.filter(p));
        } else {
            assert(s.filter(p) =~= init.filter(p));
        }
    }
}

proof fn lemma_recent_count_cleared(s: Seq<ProviderFailure>, name: Seq<char>, manga_id: u128, start: int)
    ensures
        recent_count(s.filter(|f: ProviderFailure| !(f.provider_name@ == name && f.manga_id == manga_id)), name, manga_id, start) == 0,
    decreases s.len(),
{
    reveal(Seq::filter);
    if s.len() > 0 {
        let init = s.drop_last();
        lemma_recent_count_cleared(init, name, manga_id, start);
        let p = |f: ProviderFailure| !(f.provider_name@ == name && f.manga_id == manga_id);
        if p(s.last()) {
            assert(s.filter(p).drop_last() =~= init.filter(p));
        } else {
            assert(s.filter(p) =~= init.filter(p));
        }
    }
}

/// Clearing a provider's failures for a series resets its count to zero in
/// every window.
pub proof fn law_clear_resets_count(s: Seq<ProviderFailure>, name: Seq<char>, manga_id: u128, start: int)
    ensures
        recent_count(s.filter(|f: ProviderFailure| !(f.provider_name@ == name && f.manga_id == manga_id)), name, manga_id, start) == 0,
{
    lemma_recent_count_cleared(s, name, manga_id, start);
}

/// Removing the failures older than a window leaves the count of every
/// provider and series in that window (or a later one) unchanged.
pub proof fn law_cleanup_keeps_window_counts(s: Seq<ProviderFailure>, name: Seq<char>, manga_id: u128, cut: int, start: int)
    requires
        cut <= start,
    ensures
        recent_count(s.filter(|f: ProviderFailure| f.failed_at >= cut), name, manga_id, start) == recent_count(s, name, manga_id, start),
{
    lemma_recent_count_filtered(s, name, manga_id, start, cut);
}

/// A failure recorded inside the window adds one to the count of its
/// provider and series.
pub proof fn law_recorded_failure_counts_once(s: Seq<ProviderFailure>, f: ProviderFailure, start: int)
    requires
        f.failed_at >= start,
    ensures
        recent_count(s.push(f), f.provider_name@, f.manga_id, start) == recent_count(s, f.provider_name@, f.manga_id, start) + 1,
{
    assert(s.push(f).drop_last() =~= s);
}

} // verus!
