//! Provider scores: the score and enabled flag stored for a provider, either
//! provider-wide or for one series, and the score that applies to a series
//! (series over provider-wide over the provider's configured default).

use vstd::prelude::*;
use crate::errors::{bad_request, is_failure, ApiFailure, ApiStatus};
use crate::manga::{parse_uuid, uuid_parsed};
use crate::provider_table::{list_has_spec, ProviderTable};
use crate::text::str_eq;

verus! {

/// What is stored for a provider: its score and whether it is enabled.
#[derive(Clone, Copy, Debug)]
pub struct ScoreSetting {
    pub score: i32,
    pub enabled: bool,
}

/// The provider score table.
pub struct ProviderScores {
    pub table: ProviderTable<ScoreSetting>,
}

/// The table as specifications see it.
pub type ScoreMap = Map<(Seq<char>, Option<u128>), ScoreSetting>;

impl View for ProviderScores {
    type V = Map<(Seq<char>, Option<u128>), ScoreSetting>;

    open spec fn view(&self) -> Map<(Seq<char>, Option<u128>), ScoreSetting> {
        self.table@
    }
}

/// The score part of a stored setting.
pub open spec fn score_of(s: Option<ScoreSetting>) -> Option<i32> {
    match s {
        Some(v) => Some(v.score),
        None => None,
    }
}

/// The enabled flag of a stored setting; a provider without one is enabled.
pub open spec fn enabled_of(s: Option<ScoreSetting>) -> bool {
    match s {
        Some(v) => v.enabled,
        None => true,
    }
}

/// The score that applies to a series: its own, else the provider-wide one,
/// else the provider's default.
pub open spec fn effective_score_spec(t: ScoreMap, name: Seq<char>, manga_id: u128, default_score: i32) -> i32 {
    match score_of(t.get((name, Some(manga_id)))) {
        Some(s) => s,
        None => match score_of(t.get((name, None))) {
            Some(g) => g,
            None => default_score,
        },
    }
}

/// The default a list of configured defaults gives a provider: the last pair
/// with its name.
pub open spec fn default_score_of(ds: Seq<(String, i32)>, name: Seq<char>) -> Option<i32>
    decreases ds.len(),
{
    if ds.len() == 0 {
        None
    } else if ds.last().0@ == name {
        Some(ds.last().1)
    } else {
        default_score_of(ds.drop_last(), name)
    }
}

/// The score a provider gets for a series when all scores are loaded:
/// series, else provider-wide, else configured default, else 0.
pub open spec fn loaded_score(t: ScoreMap, name: Seq<char>, manga_id: u128, ds: Seq<(String, i32)>) -> i32 {
    match default_score_of(ds, name) {
        Some(d) => effective_score_spec(t, name, manga_id, d),
        None => effective_score_spec(t, name, manga_id, 0),
    }
}

/// The providers that get a score when all scores for a series are loaded.
pub open spec fn scored_provider(t: ScoreMap, name: Seq<char>, manga_id: u128, ds: Seq<(String, i32)>) -> bool {
    ||| exists|i: int| 0 <= i < ds.len() && #[trigger] ds[i].0@ == name
    ||| t.contains_key((name, None))
    ||| t.contains_key((name, Some(manga_id)))
}

/// Whether some pair of `v` is for `name`.
pub open spec fn has_score_for(v: Seq<(String, i32)>, name: Seq<char>) -> bool {
    exists|i: int| 0 <= i < v.len() && #[trigger] v[i].0@ == name
}

/// The configured default for `name`.
fn default_lookup(ds: &Vec<(String, i32)>, name: &str) -> (r: Option<i32>)
    ensures
        r == default_score_of(ds@, name@),
{
    let mut r: Option<i32> = None;
    let mut i: usize = 0;
    while i < ds.len()
        invariant
            i <= ds.len(),
            r == default_score_of(ds@.take(i as int), name@),
        decreases ds.len() - i,
    {
        proof {
            assert(ds@.take(i + 1).drop_last() =~= ds@.take(i as int));
        }
        if str_eq(ds[i].0.as_str(), name) {
            r = Some(ds[i].1);
        }
        i += 1;
    }
    proof {
        assert(ds@.take(ds.len() as int) =~= ds@);
    }
    r
}

impl ProviderScores {
    /// A table with no stored scores.
    pub fn new() -> (t: Self)
        ensures
            t@ == ScoreMap::empty(),
    {
        ProviderScores { table: ProviderTable::new() }
    }

    /// The provider-wide score override (`None`: the default applies).
    pub fn get_global_score(&self, provider_name: &str) -> (r: Option<i32>)
        ensures
            r == score_of(self@.get((provider_name@, None))),
    {
        match self.table.get(provider_name, None) {
            Some(s) => Some(s.score),
            None => None,
        }
    }

    /// The series score override (`None`: the provider-wide score applies).
    pub fn get_series_score(&self, provider_name: &str, manga_id: u128) -> (r: Option<i32>)
        ensures
            r == score_of(self@.get((provider_name@, Some(manga_id)))),
    {
        match self.table.get(provider_name, Some(manga_id)) {
            Some(s) => Some(s.score),
            None => None,
        }
    }

    /// Whether the provider is enabled for the series; enabled without a row.
    pub fn get_enabled(&self, provider_name: &str, manga_id: u128) -> (r: bool)
        ensures
            r == enabled_of(self@.get((provider_name@, Some(manga_id)))),
    {
        match self.table.get(provider_name, Some(manga_id)) {
            Some(s) => s.enabled,
            None => true,
        }
    }

    /// Whether the provider is enabled provider-wide; enabled without a row.
    pub fn get_global_enabled(&self, provider_name: &str) -> (r: bool)
        ensures
            r == enabled_of(self@.get((provider_name@, None))),
    {
        match self.table.get(provider_name, None) {
            Some(s) => s.enabled,
            None => true,
        }
    }

    /// The providers whose provider-wide row disables them, each once.
    pub fn get_globally_disabled(&self) -> (r: Vec<String>)
        ensures
            forall|i: int, j: int| 0 <= i < j < r.len() ==> r@[i]@ != r@[j]@,
            forall|n: Seq<char>| list_has_spec(r@, n) <==> (self@.contains_key((n, None)) && !self@[(n, None)].enabled),
    {
        let names = self.table.names_for(None);
        let mut r: Vec<String> = Vec::new();
        let mut i: usize = 0;
        while i < names.len()
            invariant
                i <= names.len(),
                forall|a: int, b: int| 0 <= a < b < names.len() ==> names@[a]@ != names@[b]@,
                forall|n: Seq<char>| self.table@.contains_key((n, None)) <==> list_has_spec(names@, n),
                forall|a: int, b: int| 0 <= a < b < r.len() ==> r@[a]@ != r@[b]@,
                forall|n: Seq<char>| list_has_spec(r@, n) <==> (exists|a: int| 0 <= a < i && #[trigger] names@[a]@ == n
                    && !self.table@[(n, None)].enabled),
            decreases names.len() - i,
        {
            let s = self.table.get(names[i].as_str(), None);
            let ghost before = r@;
            let ghost cur = names@[i as int]@;
            proof {
                assert(list_has_spec(names@, cur));
                assert(s == Some(self.table@[(cur, None)]));
            }
            if !s.unwrap().enabled {
                proof {
                    if list_has_spec(r@, cur) {
                        let a = choose|a: int| 0 <= a < i && #[trigger] names@[a]@ == cur && !self.table@[(cur, None)].enabled;
                        assert(names@[a]@ != names@[i as int]@);
                    }
                }
                r.push(names[i].clone());
                proof {
                    assert forall|a: int, b: int| 0 <= a < b < r.len() implies r@[a]@ != r@[b]@ by {
                        if b == r.len() - 1 {
                            assert(r@[a] == before[a]);
                            if r@[a]@ == r@[b]@ {
                                assert(list_has_spec(before, cur));
                            }
                        } else {
                            assert(r@[a] == before[a] && r@[b] == before[b]);
                        }
                    }
                    assert forall|n: Seq<char>| list_has_spec(r@, n) <==> (list_has_spec(before, n) || n == cur) by {
                        if list_has_spec(before, n) {
                            let c = choose|c: int| 0 <= c < before.len() && #[trigger] before[c]@ == n;
                            assert(r@[c] == before[c]);
                        }
                        if n == cur {
                            assert(r@[r.len() - 1]@ == n);
                        }
                        if list_has_spec(r@, n) {
                            let c = choose|c: int| 0 <= c < r.len() && #[trigger] r@[c]@ == n;
                            if c < before.len() {
                                assert(before[c] == r@[c]);
                            }
                        }
                    }
                }
            }
            proof {
                assert forall|n: Seq<char>| list_has_spec(r@, n) <==> (exists|a: int| 0 <= a < i + 1 && #[trigger] names@[a]@ == n
                    && !self.table@[(n, None)].enabled) by {
                    if n == cur {
                        if list_has_spec(before, n) {
                            let a = choose|a: int| 0 <= a < i && #[trigger] names@[a]@ == n && !self.table@[(n, None)].enabled;
                            assert(names@[a]@ != names@[i as int]@);
                        }
                        if !self.table@[(cur, None)].enabled {
                            assert(names@[i as int]@ == n);
                            assert(list_has_spec(r@, n));
                        } else {
                            assert(r@ == before);
                            assert(!list_has_spec(r@, n));
                        }
                    } else {
                        assert(list_has_spec(r@, n) == list_has_spec(before, n));
                        assert(list_has_spec(before, n) <==> (exists|a: int| 0 <= a < i && #[trigger] names@[a]@ == n
                            && !self.table@[(n, None)].enabled));
                        if exists|a: int| 0 <= a < i + 1 && #[trigger] names@[a]@ == n && !self.table@[(n, None)].enabled {
                            let a = choose|a: int| 0 <= a < i + 1 && #[trigger] names@[a]@ == n && !self.table@[(n, None)].enabled;
                            assert(a < i);
                        }
                    }
                }
            }
            i += 1;
        }
        proof {
            assert forall|n: Seq<char>| list_has_spec(r@, n) <==> (self@.contains_key((n, None)) && !self@[(n, None)].enabled) by {
                assert(self@.contains_key((n, None)) == self.table@.contains_key((n, None)));
                assert(self@[(n, None)] == self.table@[(n, None)]);
                if self.table@.contains_key((n, None)) {
                    assert(list_has_spec(names@, n));
                    let a = choose|a: int| 0 <= a < names.len() && #[trigger] names@[a]@ == n;
                }
                if list_has_spec(r@, n) {
                    let a = choose|a: int| 0 <= a < names.len() && #[trigger] names@[a]@ == n && !self.table@[(n, None)].enabled;
                    assert(list_has_spec(names@, n));
                }
            }
        }
        r
    }

    /// Stores the provider-wide score and enabled flag.
    pub fn upsert_global_score(&mut self, provider_name: &str, score: i32, enabled: bool)
        ensures
            final(self)@ == old(self)@.insert((provider_name@, None), ScoreSetting { score, enabled }),
    {
        self.table.put(provider_name, None, ScoreSetting { score, enabled });
    }

    /// Stores the series score and enabled flag.
    pub fn upsert_series(&mut self, provider_name: &str, manga_id: u128, score: i32, enabled: bool)
        ensures
            final(self)@ == old(self)@.insert((provider_name@, Some(manga_id)), ScoreSetting { score, enabled }),
    {
        self.table.put(provider_name, Some(manga_id), ScoreSetting { score, enabled });
    }

    /// Removes the provider-wide row.
    pub fn remove_global(&mut self, provider_name: &str)
        ensures
            final(self)@ == old(self)@.remove((provider_name@, None)),
    {
        self.table.remove(provider_name, None);
    }

    /// Removes the series row.
    pub fn remove_series(&mut self, provider_name: &str, manga_id: u128)
        ensures
            final(self)@ == old(self)@.remove((provider_name@, Some(manga_id))),
    {
        self.table.remove(provider_name, Some(manga_id));
    }

    /// The score that applies to a series: series over provider-wide over
    /// the configured default.
    pub fn get_effective_score(&self, provider_name: &str, manga_id: u128, yaml_default: i32) -> (r: i32)
        ensures
            r == effective_score_spec(self@, provider_name@, manga_id, yaml_default),
    {
        if let Some(score) = self.get_series_score(provider_name, manga_id) {
            return score;
        }
        if let Some(score) = self.get_global_score(provider_name) {
            return score;
        }
        yaml_default
    }

    /// Adds `name` with its loaded score to `out` unless it is there already.
    fn add_loaded(&self, out: &mut Vec<(String, i32)>, name: &str, manga_id: u128, ds: &Vec<(String, i32)>)
        requires
            forall|a: int, b: int| 0 <= a < b < old(out).len() ==> old(out)@[a].0@ != old(out)@[b].0@,
            forall|a: int| 0 <= a < old(out).len() ==> #[trigger] old(out)[a].1 == loaded_score(self@, old(out)@[a].0@, manga_id, ds@),
        ensures
            forall|a: int, b: int| 0 <= a < b < final(out).len() ==> final(out)@[a].0@ != final(out)@[b].0@,
            forall|a: int| 0 <= a < final(out).len() ==> #[trigger] final(out)[a].1 == loaded_score(self@, final(out)@[a].0@, manga_id, ds@),
            forall|n: Seq<char>| has_score_for(final(out)@, n) <==> (has_score_for(old(out)@, n) || n == name@),
    {
        let mut seen = false;
        let mut a: usize = 0;
        while a < out.len()
            invariant
                a <= out.len(),
                seen <==> exists|b: int| 0 <= b < a && #[trigger] out@[b].0@ == name@,
            decreases out.len() - a,
        {
            if str_eq(out[a].0.as_str(), name) {
                seen = true;
            }
            a += 1;
        }
        if !seen {
            let d = match default_lookup(ds, name) {
                Some(d) => d,
                None => 0,
            };
            let score = self.get_effective_score(name, manga_id, d);
            let ghost before = out@;
            out.push((name.to_string(), score));
            proof {
                assert forall|n: Seq<char>| has_score_for(out@, n) <==> (has_score_for(before, n) || n == name@) by {
                    if has_score_for(before, n) {
                        let c = choose|c: int| 0 <= c < before.len() && #[trigger] before[c].0@ == n;
                        assert(out@[c] == before[c]);
                    }
                    if n == name@ {
                        assert(out@[out.len() - 1].0@ == n);
                    }
                    if has_score_for(out@, n) {
                        let c = choose|c: int| 0 <= c < out.len() && #[trigger] out@[c].0@ == n;
                        if c < before.len() {
                            assert(before[c] == out@[c]);
                        }
                    }
                }
            }
        }
    }

    /// The score of every provider that has a configured default or a stored
    /// row for the series or provider-wide, each once: series over
    /// provider-wide over configured default over 0.
    pub fn load_effective_scores(&self, manga_id: u128, yaml_defaults: &Vec<(String, i32)>) -> (r: Vec<(String, i32)>)
        ensures
            forall|a: int, b: int| 0 <= a < b < r.len() ==> r@[a].0@ != r@[b].0@,
            forall|a: int| 0 <= a < r.len() ==> #[trigger] r[a].1 == loaded_score(self@, r@[a].0@, manga_id, yaml_defaults@),
            forall|n: Seq<char>| has_score_for(r@, n) <==> scored_provider(self@, n, manga_id, yaml_defaults@),
    {
        let mut out: Vec<(String, i32)> = Vec::new();
        let mut i: usize = 0;
        while i < yaml_defaults.len()
            invariant
                i <= yaml_defaults.len(),
                forall|a: int, b: int| 0 <= a < b < out.len() ==> out@[a].0@ != out@[b].0@,
                forall|a: int| 0 <= a < out.len() ==> #[trigger] out[a].1 == loaded_score(self@, out@[a].0@, manga_id, yaml_defaults@),
                forall|n: Seq<char>| has_score_for(out@, n) <==> exists|b: int| 0 <= b < i && #[trigger] yaml_defaults@[b].0@ == n,
            decreases yaml_defaults.len() - i,
        {
            self.add_loaded(&mut out, yaml_defaults[i].0.as_str(), manga_id, yaml_defaults);
            proof {
                assert forall|n: Seq<char>| has_score_for(out@, n) <==> exists|b: int| 0 <= b < i + 1 && #[trigger] yaml_defaults@[b].0@ == n by {
                    if n == yaml_defaults@[i as int].0@ {
                        assert(yaml_defaults@[i as int].0@ == n);
                    } else if exists|b: int| 0 <= b < i + 1 && #[trigger] yaml_defaults@[b].0@ == n {
                        let b = choose|b: int| 0 <= b < i + 1 && #[trigger] yaml_defaults@[b].0@ == n;
                        assert(b < i);
                    }
                }
            }
            i += 1;
        }
        let globals = self.table.names_for(None);
        let mut g: usize = 0;
        while g < globals.len()
            invariant
                g <= globals.len(),
                forall|a: int, b: int| 0 <= a < b < out.len() ==> out@[a].0@ != out@[b].0@,
                forall|a: int| 0 <= a < out.len() ==> #[trigger] out[a].1 == loaded_score(self@, out@[a].0@, manga_id, yaml_defaults@),
                forall|n: Seq<char>| self.table@.contains_key((n, None)) <==> list_has_spec(globals@, n),
                forall|n: Seq<char>| has_score_for(out@, n) <==> (has_score_for(yaml_defaults@, n) || exists|b: int|
                    0 <= b < g && #[trigger] globals@[b]@ == n),
            decreases globals.len() - g,
        {
            self.add_loaded(&mut out, globals[g].as_str(), manga_id, yaml_defaults);
            proof {
                assert forall|n: Seq<char>| has_score_for(out@, n) <==> (has_score_for(yaml_defaults@, n) || exists|b: int|
                    0 <= b < g + 1 && #[trigger] globals@[b]@ == n) by {
                    if n == globals@[g as int]@ {
                        assert(globals@[g as int]@ == n);
                    } else if exists|b: int| 0 <= b < g + 1 && #[trigger] globals@[b]@ == n {
                        let b = choose|b: int| 0 <= b < g + 1 && #[trigger] globals@[b]@ == n;
                        assert(b < g);
                    }
                }
            }
            g += 1;
        }
        let series = self.table.names_for(Some(manga_id));
        let mut s: usize = 0;
        while s < series.len()
            invariant
                s <= series.len(),
                forall|a: int, b: int| 0 <= a < b < out.len() ==> out@[a].0@ != out@[b].0@,
                forall|a: int| 0 <= a < out.len() ==> #[trigger] out[a].1 == loaded_score(self@, out@[a].0@, manga_id, yaml_defaults@),
                forall|n: Seq<char>| self.table@.contains_key((n, None)) <==> list_has_spec(globals@, n),
                forall|n: Seq<char>| self.table@.contains_key((n, Some(manga_id))) <==> list_has_spec(series@, n),
                forall|n: Seq<char>| has_score_for(out@, n) <==> (has_score_for(yaml_defaults@, n) || list_has_spec(globals@, n)
                    || exists|b: int| 0 <= b < s && #[trigger] series@[b]@ == n),
            decreases series.len() - s,
        {
            self.add_loaded(&mut out, series[s].as_str(), manga_id, yaml_defaults);
            proof {
                assert forall|n: Seq<char>| has_score_for(out@, n) <==> (has_score_for(yaml_defaults@, n) || list_has_spec(globals@, n)
                    || exists|b: int| 0 <= b < s + 1 && #[trigger] series@[b]@ == n) by {
                    if n == series@[s as int]@ {
                        assert(series@[s as int]@ == n);
                    } else if exists|b: int| 0 <= b < s + 1 && #[trigger] series@[b]@ == n {
                        let b = choose|b: int| 0 <= b < s + 1 && #[trigger] series@[b]@ == n;
                        assert(b < s);
                    }
                }
            }
            s += 1;
        }
        proof {
            assert forall|n: Seq<char>| has_score_for(out@, n) <==> scored_provider(self@, n, manga_id, yaml_defaults@) by {
                assert(self@.contains_key((n, None)) == self.table@.contains_key((n, None)));
                assert(self@.contains_key((n, Some(manga_id))) == self.table@.contains_key((n, Some(manga_id))));
                if list_has_spec(series@, n) {
                    let b = choose|b: int| 0 <= b < series.len() && #[trigger] series@[b]@ == n;
                }
                if exists|b: int| 0 <= b < series.len() && #[trigger] series@[b]@ == n {
                    let b = choose|b: int| 0 <= b < series.len() && #[trigger] series@[b]@ == n;
                    assert(list_has_spec(series@, n));
                }
            }
        }
        out
    }

    /// Every series row for `manga_id`: provider, score and enabled flag, each
    /// provider once.
    pub fn get_all_series_overrides(&self, manga_id: u128) -> (r: Vec<(String, i32, bool)>)
        ensures
            forall|a: int, b: int| 0 <= a < b < r.len() ==> r@[a].0@ != r@[b].0@,
            forall|a: int| 0 <= a < r.len() ==> self@.get((#[trigger] r@[a].0@, Some(manga_id))) == Some(
                ScoreSetting { score: r[a].1, enabled: r[a].2 },
            ),
            forall|n: Seq<char>| self@.contains_key((n, Some(manga_id))) <==> exists|a: int| 0 <= a < r.len() && #[trigger] r@[a].0@ == n,
    {
        let names = self.table.names_for(Some(manga_id));
        let mut r: Vec<(String, i32, bool)> = Vec::new();
        let mut i: usize = 0;
        while i < names.len()
            invariant
                i <= names.len(),
                r.len() == i,
                forall|a: int, b: int| 0 <= a < b < names.len() ==> names@[a]@ != names@[b]@,
                forall|n: Seq<char>| self.table@.contains_key((n, Some(manga_id))) <==> list_has_spec(names@, n),
                forall|a: int| 0 <= a < i ==> #[trigger] r@[a].0@ == names@[a]@,
                forall|a: int| 0 <= a < i ==> self@.get((#[trigger] r@[a].0@, Some(manga_id))) == Some(
                    ScoreSetting { score: r[a].1, enabled: r[a].2 },
                ),
            decreases names.len() - i,
        {
            proof {
                assert(list_has_spec(names@, names@[i as int]@));
            }
            let v = self.table.get(names[i].as_str(), Some(manga_id)).unwrap();
            r.push((names[i].clone(), v.score, v.enabled));
            i += 1;
        }
        proof {
            assert forall|n: Seq<char>| self@.contains_key((n, Some(manga_id))) <==> exists|a: int| 0 <= a < r.len() && #[trigger] r@[a].0@ == n by {
                assert(self@.contains_key((n, Some(manga_id))) == self.table@.contains_key((n, Some(manga_id))));
                if self.table@.contains_key((n, Some(manga_id))) {
                    assert(list_has_spec(names@, n));
                    let a = choose|a: int| 0 <= a < names.len() && #[trigger] names@[a]@ == n;
                    assert(r@[a].0@ == n);
                }
                if exists|a: int| 0 <= a < r.len() && #[trigger] r@[a].0@ == n {
                    let a = choose|a: int| 0 <= a < r.len() && #[trigger] r@[a].0@ == n;
                    assert(names@[a]@ == n);
                    assert(list_has_spec(names@, n));
                }
            }
        }
        r
    }
}

/// A provider's provider-wide score as the API reports it.
#[derive(Debug)]
pub struct GlobalScoreResponse {
    /// The provider-wide override; `None` when the default applies.
    pub score: Option<i32>,
    /// Whether the provider is enabled provider-wide.
    pub enabled: bool,
    /// The provider's configured default score.
    pub default_score: i32,
}

/// A provider's score for one series as the API reports it.
#[derive(Debug)]
pub struct SeriesScoreResponse {
    /// The series override; `None` when the provider-wide score or default applies.
    pub score: Option<i32>,
    /// Whether the provider is enabled for the series.
    pub enabled: bool,
    /// The score that applies: series over provider-wide over default.
    pub effective_score: i32,
    /// The provider's configured default score.
    pub default_score: i32,
    /// Where the effective score comes from: "series", "global" or "default".
    pub score_source: String,
}

/// A request to set a provider's provider-wide score.
#[derive(Debug)]
pub struct SetGlobalScoreRequest {
    pub score: i32,
    pub enabled: Option<bool>,
}

/// A request to set a provider's score for one series.
#[derive(Debug)]
pub struct SetSeriesScoreRequest {
    pub score: Option<i32>,
    pub enabled: Option<bool>,
}

/// Where the effective score of a series comes from.
pub open spec fn score_source_spec(t: ScoreMap, name: Seq<char>, manga_id: u128) -> Seq<char> {
    if t.contains_key((name, Some(manga_id))) {
        "series"@
    } else if t.contains_key((name, None)) {
        "global"@
    } else {
        "default"@
    }
}

/// The series response that a table gives.
pub open spec fn series_response_spec(r: SeriesScoreResponse, t: ScoreMap, name: Seq<char>, manga_id: u128, default_score: i32) -> bool {
    &&& r.score == score_of(t.get((name, Some(manga_id))))
    &&& r.enabled == enabled_of(t.get((name, Some(manga_id))))
    &&& r.effective_score == effective_score_spec(t, name, manga_id, default_score)
    &&& r.default_score == default_score
    &&& r.score_source@ == score_source_spec(t, name, manga_id)
}

/// The series response for the table as it stands.
fn series_response(scores: &ProviderScores, manga_id: u128, name: &str, default_score: i32) -> (r: SeriesScoreResponse)
    ensures
        series_response_spec(r, scores@, name@, manga_id, default_score),
{
    let score = scores.get_series_score(name, manga_id);
    let enabled = scores.get_enabled(name, manga_id);
    let (effective_score, score_source) = if let Some(s) = score {
        (s, "series".to_string())
    } else if let Some(s) = scores.get_global_score(name) {
        (s, "global".to_string())
    } else {
        (default_score, "default".to_string())
    };
    SeriesScoreResponse { score, enabled, effective_score, default_score, score_source }
}

/// The provider-wide score of a provider.
pub fn get_global_score(scores: &ProviderScores, name: &str, default_score: i32) -> (r: GlobalScoreResponse)
    ensures
        r.score == score_of(scores@.get((name@, None))),
        r.enabled == enabled_of(scores@.get((name@, None))),
        r.default_score == default_score,
{
    GlobalScoreResponse {
        score: scores.get_global_score(name),
        enabled: scores.get_global_enabled(name),
        default_score,
    }
}

/// Sets the provider-wide score; a missing enabled flag enables the provider.
pub fn set_global_score(scores: &mut ProviderScores, name: &str, body: &SetGlobalScoreRequest, default_score: i32) -> (r: GlobalScoreResponse)
    ensures
        final(scores)@ == old(scores)@.insert(
            (name@, None),
            ScoreSetting { score: body.score, enabled: body.enabled.unwrap_or(true) },
        ),
        r.score == Some(body.score),
        r.enabled == body.enabled.unwrap_or(true),
        r.default_score == default_score,
{
    let enabled = body.enabled.unwrap_or(true);
    scores.upsert_global_score(name, body.score, enabled);
    GlobalScoreResponse { score: Some(body.score), enabled, default_score }
}

/// A provider's score for the series whose id is `id`.
pub fn get_series_score(scores: &ProviderScores, id: &str, name: &str, default_score: i32) -> (r: Result<SeriesScoreResponse, ApiFailure>)
    ensures
        match uuid_parsed(id@) {
            Some(m) => r matches Ok(resp) && series_response_spec(resp, scores@, name@, m, default_score),
            None => r matches Err(f) && is_failure(f, ApiStatus::BadRequest, "invalid UUID"@),
        },
{
    match parse_uuid(id) {
        Some(manga_id) => Ok(series_response(scores, manga_id, name, default_score)),
        None => Err(bad_request("invalid UUID")),
    }
}

/// Sets a provider's score for a series: a missing score stores 0, a missing
/// enabled flag enables the provider.
pub fn set_series_score(
    scores: &mut ProviderScores,
    id: &str,
    name: &str,
    body: &SetSeriesScoreRequest,
    default_score: i32,
) -> (r: Result<SeriesScoreResponse, ApiFailure>)
    ensures
        match uuid_parsed(id@) {
            Some(m) => {
                &&& final(scores)@ == old(scores)@.insert(
                    (name@, Some(m)),
                    ScoreSetting { score: body.score.unwrap_or(0), enabled: body.enabled.unwrap_or(true) },
                )
                &&& r matches Ok(resp) && series_response_spec(resp, final(scores)@, name@, m, default_score)
            },
            None => *final(scores) == *old(scores) && (r matches Err(f) && is_failure(f, ApiStatus::BadRequest, "invalid UUID"@)),
        },
{
    match parse_uuid(id) {
        Some(manga_id) => {
            let score = body.score.unwrap_or(0);
            let enabled = body.enabled.unwrap_or(true);
            scores.upsert_series(name, manga_id, score, enabled);
            Ok(series_response(scores, manga_id, name, default_score))
        },
        None => Err(bad_request("invalid UUID")),
    }
}

/// Removes the provider-wide score: the provider is then enabled and scored
/// by its default.
pub fn delete_global_score(scores: &mut ProviderScores, name: &str, default_score: i32) -> (r: GlobalScoreResponse)
    ensures
        final(scores)@ == old(scores)@.remove((name@, None)),
        r.score is None,
        r.enabled,
        r.default_score == default_score,
{
    scores.remove_global(name);
    GlobalScoreResponse { score: None, enabled: true, default_score }
}

/// Removes a provider's score for a series, with its enabled flag.
pub fn delete_series_score(scores: &mut ProviderScores, id: &str, name: &str, default_score: i32) -> (r: Result<SeriesScoreResponse, ApiFailure>)
    ensures
        match uuid_parsed(id@) {
            Some(m) => {
                &&& final(scores)@ == old(scores)@.remove((name@, Some(m)))
                &&& r matches Ok(resp) && series_response_spec(resp, final(scores)@, name@, m, default_score)
            },
            None => *final(scores) == *old(scores) && (r matches Err(f) && is_failure(f, ApiStatus::BadRequest, "invalid UUID"@)),
        },
{
    match parse_uuid(id) {
        Some(manga_id) => {
            scores.remove_series(name, manga_id);
            Ok(series_response(scores, manga_id, name, default_score))
        },
        None => Err(bad_request("invalid UUID")),
    }
}

/// A score stored for a series is the one that applies to it, and it comes
/// from the series; the provider's other rows are unchanged.
pub proof fn law_series_score_applies(t: ScoreMap, name: Seq<char>, manga_id: u128, score: i32, enabled: bool, default_score: i32)
    ensures
        ({
            let t2 = t.insert((name, Some(manga_id)), ScoreSetting { score, enabled });
            &&& effective_score_spec(t2, name, manga_id, default_score) == score
            &&& score_source_spec(t2, name, manga_id) == "series"@
            &&& enabled_of(t2.get((name, Some(manga_id)))) == enabled
            &&& forall|k: (Seq<char>, Option<u128>)| k != (name, Some(manga_id)) ==> t2.get(k) == t.get(k)
        }),
{
}

/// Once a series row is removed, the series takes the provider-wide score
/// when there is one and the default otherwise, and the provider is enabled
/// for it.
pub proof fn law_removed_series_score_falls_back(t: ScoreMap, name: Seq<char>, manga_id: u128, default_score: i32)
    ensures
        ({
            let t2 = t.remove((name, Some(manga_id)));
            effective_score_spec(t2, name, manga_id, default_score) == match score_of(t.get((name, None))) {
                Some(g) => g,
                None => default_score,
            }
        }),
        score_source_spec(t.remove((name, Some(manga_id))), name, manga_id) != "series"@,
        enabled_of(t.remove((name, Some(manga_id))).get((name, Some(manga_id)))),
{
    let t2 = t.remove((name, Some(manga_id)));
    assert(t2.get((name, None)) == t.get((name, None)));
    assert(!t2.contains_key((name, Some(manga_id))));
    reveal_strlit("series");
    reveal_strlit("global");
    reveal_strlit("default");
    assert("global"@[0] != "series"@[0]);
}

} // verus!
