//! Provider settings: whether a provider is enabled, provider-wide or for one
//! series (a series override wins over the provider-wide setting, which wins
//! over the default of enabled), and the provider versions last seen.

use vstd::prelude::*;
use crate::errors::{bad_request, is_failure, ApiFailure, ApiStatus};
use crate::manga::{parse_uuid, uuid_parsed};
use crate::provider_table::{list_has_spec, ProviderTable};

verus! {

/// The provider settings tables.
pub struct ProviderSettings {
    /// Enabled flags, provider-wide (`None`) or per series.
    pub enabled: ProviderTable<bool>,
    /// The last version seen of each provider, stored provider-wide.
    pub versions: ProviderTable<String>,
}

/// The enabled flags as specifications see them.
pub type EnabledMap = Map<(Seq<char>, Option<u128>), bool>;

/// Whether a provider is enabled for a series: the series override, else the
/// provider-wide setting, else enabled.
pub open spec fn effective_enabled_spec(t: EnabledMap, name: Seq<char>, manga_id: u128) -> bool {
    match t.get((name, Some(manga_id))) {
        Some(b) => b,
        None => match t.get((name, None)) {
            Some(g) => g,
            None => true,
        },
    }
}

/// Whether a provider is enabled provider-wide; enabled without a row.
pub open spec fn global_enabled_spec(t: EnabledMap, name: Seq<char>) -> bool {
    match t.get((name, None)) {
        Some(g) => g,
        None => true,
    }
}

impl ProviderSettings {
    /// Tables with nothing stored.
    pub fn new() -> (s: Self)
        ensures
            s.enabled@ == EnabledMap::empty(),
            s.versions@ == Map::<(Seq<char>, Option<u128>), String>::empty(),
    {
        ProviderSettings { enabled: ProviderTable::new(), versions: ProviderTable::new() }
    }

    /// The providers that are disabled provider-wide, each once.
    pub fn get_globally_disabled(&self) -> (r: Vec<String>)
        ensures
            forall|i: int, j: int| 0 <= i < j < r.len() ==> r[i]@ != r[j]@,
            forall|n: Seq<char>| list_has_spec(r@, n) <==> self.enabled@.get((n, None)) == Some(false),
    {
        let names = self.enabled.names_for(None);
        let mut r: Vec<String> = Vec::new();
        let mut i: usize = 0;
        while i < names.len()
            invariant
                i <= names.len(),
                forall|a: int, b: int| 0 <= a < b < names.len() ==> names@[a]@ != names@[b]@,
                forall|n: Seq<char>| self.enabled@.contains_key((n, None)) <==> list_has_spec(names@, n),
                forall|a: int, b: int| 0 <= a < b < r.len() ==> r@[a]@ != r@[b]@,
                forall|n: Seq<char>| list_has_spec(r@, n) <==> (exists|a: int| 0 <= a < i && #[trigger] names@[a]@ == n
                    && !self.enabled@[(n, None)]),
            decreases names.len() - i,
        {
            let s = self.enabled.get(names[i].as_str(), None);
            let ghost before = r@;
            let ghost cur = names@[i as int]@;
            proof {
                assert(list_has_spec(names@, cur));
                assert(s == Some(self.enabled@[(cur, None)]));
            }
            if !s.unwrap() {
                proof {
                    if list_has_spec(r@, cur) {
                        let a = choose|a: int| 0 <= a < i && #[trigger] names@[a]@ == cur && !self.enabled@[(cur, None)];
                        assert(names@[a]@ != names@[i as int]@);
                    }
                }
                r.push(names[i].clone());
                proof {
                    assert forall|a: int, b: int| 0 <= a < b < r.len() implies r@[a]@ != r@[b]@ by {
                        if b == r.len() - 1 {
                            assert(r@[a] == before[a]);
                            if r@[a]@ == r@[b]@ {
                                assert(list_has_spec(before, cur));
                            }
                        } else {
                            assert(r@[a] == before[a] && r@[b] == before[b]);
                        }
                    }
                    assert forall|n: Seq<char>| list_has_spec(r@, n) <==> (list_has_spec(before, n) || n == cur) by {
                        if list_has_spec(before, n) {
                            let c = choose|c: int| 0 <= c < before.len() && #[trigger] before[c]@ == n;
                            assert(r@[c] == before[c]);
                        }
                        if n == cur {
                            assert(r@[r.len() - 1]@ == n);
                        }
                        if list_has_spec(r@, n) {
                            let c = choose|c: int| 0 <= c < r.len() && #[trigger] r@[c]@ == n;
                            if c < before.len() {
                                assert(before[c] == r@[c]);
                            }
                        }
                    }
                }
            }
            proof {
                assert forall|n: Seq<char>| list_has_spec(r@, n) <==> (exists|a: int| 0 <= a < i + 1 && #[trigger] names@[a]@ == n
                    && !self.enabled@[(n, None)]) by {
                    if n == cur {
                        if list_has_spec(before, n) {
                            let a = choose|a: int| 0 <= a < i && #[trigger] names@[a]@ == n && !self.enabled@[(n, None)];
                            assert(names@[a]@ != names@[i as int]@);
                        }
                        if !self.enabled@[(cur, None)] {
                            assert(names@[i as int]@ == n);
                            assert(list_has_spec(r@, n));
                        } else {
                            assert(r@ == before);
                            assert(!list_has_spec(r@, n));
                        }
                    } else {
                        assert(list_has_spec(r@, n) == list_has_spec(before, n));
                        assert(list_has_spec(before, n) <==> (exists|a: int| 0 <= a < i && #[trigger] names@[a]@ == n
                            && !self.enabled@[(n, None)]));
                        if exists|a: int| 0 <= a < i + 1 && #[trigger] names@[a]@ == n && !self.enabled@[(n, None)] {
                            let a = choose|a: int| 0 <= a < i + 1 && #[trigger] names@[a]@ == n && !self.enabled@[(n, None)];
                            assert(a < i);
                        }
                    }
                }
            }
            i += 1;
        }
        proof {
            assert forall|n: Seq<char>| list_has_spec(r@, n) <==> self.enabled@.get((n, None)) == Some(false) by {
                if self.enabled@.contains_key((n, None)) {
                    assert(list_has_spec(names@, n));
                    let a = choose|a: int| 0 <= a < names.len() && #[trigger] names@[a]@ == n;
                }
                if list_has_spec(r@, n) {
                    let a = choose|a: int| 0 <= a < names.len() && #[trigger] names@[a]@ == n && !self.enabled@[(n, None)];
                    assert(list_has_spec(names@, n));
                }
            }
        }
        r
    }

    /// Whether the provider is enabled provider-wide; enabled without a row.
    pub fn get_global_enabled(&self, name: &str) -> (r: bool)
        ensures
            r == global_enabled_spec(self.enabled@, name@),
    {
        match self.enabled.get(name, None) {
            Some(b) => b,
            None => true,
        }
    }

    /// Stores the provider-wide enabled flag.
    pub fn set_global_enabled(&mut self, name: &str, enabled: bool)
        ensures
            final(self).enabled@ == old(self).enabled@.insert((name@, None), enabled),
            final(self).versions@ == old(self).versions@,
    {
        self.enabled.put(name, None, enabled);
    }

    /// The series override (`None`: the provider-wide setting applies).
    pub fn get_series_enabled(&self, name: &str, manga_id: u128) -> (r: Option<bool>)
        ensures
            r == self.enabled@.get((name@, Some(manga_id))),
    {
        self.enabled.get(name, Some(manga_id))
    }

    /// Whether the provider is enabled for the series: series override over
    /// provider-wide setting over enabled.
    pub fn get_effective_enabled(&self, name: &str, manga_id: u128) -> (r: bool)
        ensures
            r == effective_enabled_spec(self.enabled@, name@, manga_id),
    {
        if let Some(series_val) = self.get_series_enabled(name, manga_id) {
            return series_val;
        }
        self.get_global_enabled(name)
    }

    /// Stores the series override.
    pub fn set_series_enabled(&mut self, name: &str, manga_id: u128, enabled: bool)
        ensures
            final(self).enabled@ == old(self).enabled@.insert((name@, Some(manga_id)), enabled),
            final(self).versions@ == old(self).versions@,
    {
        self.enabled.put(name, Some(manga_id), enabled);
    }

    /// Removes the series override; the provider-wide setting applies again.
    pub fn delete_series_setting(&mut self, name: &str, manga_id: u128)
        ensures
            final(self).enabled@ == old(self).enabled@.remove((name@, Some(manga_id))),
            final(self).versions@ == old(self).versions@,
    {
        self.enabled.remove(name, Some(manga_id));
    }

    /// Every series override for `manga_id`, each provider once.
    pub fn get_all_series_overrides(&self, manga_id: u128) -> (r: Vec<(String, bool)>)
        ensures
            forall|a: int, b: int| 0 <= a < b < r.len() ==> r@[a].0@ != r@[b].0@,
            forall|a: int| 0 <= a < r.len() ==> self.enabled@.get((#[trigger] r@[a].0@, Some(manga_id))) == Some(r@[a].1),
            forall|n: Seq<char>| self.enabled@.contains_key((n, Some(manga_id))) <==> exists|a: int|
                0 <= a < r.len() && #[trigger] r@[a].0@ == n,
    {
        let names = self.enabled.names_for(Some(manga_id));
        let mut r: Vec<(String, bool)> = Vec::new();
        let mut i: usize = 0;
        while i < names.len()
            invariant
                i <= names.len(),
                r.len() == i,
                forall|a: int, b: int| 0 <= a < b < names.len() ==> names@[a]@ != names@[b]@,
                forall|n: Seq<char>| self.enabled@.contains_key((n, Some(manga_id))) <==> list_has_spec(names@, n),
                forall|a: int| 0 <= a < i ==> #[trigger] r@[a].0@ == names@[a]@,
                forall|a: int| 0 <= a < i ==> self.enabled@.get((#[trigger] r@[a].0@, Some(manga_id))) == Some(r@[a].1),
            decreases names.len() - i,
        {
            proof {
                assert(list_has_spec(names@, names@[i as int]@));
            }
            let v = self.enabled.get(names[i].as_str(), Some(manga_id)).unwrap();
            r.push((names[i].clone(), v));
            i += 1;
        }
        proof {
            assert forall|n: Seq<char>| self.enabled@.contains_key((n, Some(manga_id))) <==> exists|a: int|
                0 <= a < r.len() && #[trigger] r@[a].0@ == n by {
                if self.enabled@.contains_key((n, Some(manga_id))) {
                    assert(list_has_spec(names@, n));
                    let a = choose|a: int| 0 <= a < names.len() && #[trigger] names@[a]@ == n;
                    assert(r@[a].0@ == n);
                }
                if exists|a: int| 0 <= a < r.len() && #[trigger] r@[a].0@ == n {
                    let a = choose|a: int| 0 <= a < r.len() && #[trigger] r@[a].0@ == n;
                    assert(names@[a]@ == n);
                    assert(list_has_spec(names@, n));
                }
            }
        }
        r
    }

    /// The version last stored for the provider (`None`: never seen).
    pub fn get_version(&self, name: &str) -> (r: Option<String>)
        ensures
            r == self.versions@.get((name@, None)),
    {
        self.versions.get_text(name, None)
    }

    /// Stores the provider's current version.
    pub fn set_version(&mut self, name: &str, version: &str)
        ensures
            final(self).versions@.dom() == old(self).versions@.dom().insert((name@, None)),
            final(self).versions@[(name@, None)]@ == version@,
            forall|k: (Seq<char>, Option<u128>)| k != (name@, None::<u128>) && old(self).versions@.contains_key(k) ==> final(self).versions@[k] == old(self).versions@[k],
            final(self).enabled@ == old(self).enabled@,
    {
        self.versions.put(name, None, version.to_string());
    }
}

/// A provider's provider-wide setting as the API reports it.
#[derive(Debug)]
pub struct GlobalSettingsResponse {
    /// Whether the provider is enabled provider-wide.
    pub enabled: bool,
}

/// A provider's setting for one series as the API reports it.
#[derive(Debug)]
pub struct SeriesSettingsResponse {
    /// The series override; `None` when the provider-wide setting applies.
    pub enabled: Option<bool>,
    /// Whether the provider is enabled for the series.
    pub effective_enabled: bool,
}

/// A request to enable or disable a provider provider-wide.
#[derive(Debug)]
pub struct SetGlobalSettingsRequest {
    pub enabled: bool,
}

/// A request to enable or disable a provider for one series.
#[derive(Debug)]
pub struct SetSeriesSettingsRequest {
    pub enabled: bool,
}

/// The provider-wide setting of a provider.
pub fn get_global_settings(settings: &ProviderSettings, name: &str) -> (r: GlobalSettingsResponse)
    ensures
        r.enabled == global_enabled_spec(settings.enabled@, name@),
{
    GlobalSettingsResponse { enabled: settings.get_global_enabled(name) }
}

/// Enables or disables a provider provider-wide.
pub fn set_global_settings(settings: &mut ProviderSettings, name: &str, body: &SetGlobalSettingsRequest) -> (r: GlobalSettingsResponse)
    ensures
        final(settings).enabled@ == old(settings).enabled@.insert((name@, None), body.enabled),
        final(settings).versions@ == old(settings).versions@,
        r.enabled == body.enabled,
{
    settings.set_global_enabled(name, body.enabled);
    GlobalSettingsResponse { enabled: body.enabled }
}

/// A provider's setting for the series whose id is `id`.
pub fn get_series_settings(settings: &ProviderSettings, id: &str, name: &str) -> (r: Result<SeriesSettingsResponse, ApiFailure>)
    ensures
        match uuid_parsed(id@) {
            Some(m) => r matches Ok(resp) && resp.enabled == settings.enabled@.get((name@, Some(m)))
                && resp.effective_enabled == effective_enabled_spec(settings.enabled@, name@, m),
            None => r matches Err(f) && is_failure(f, ApiStatus::BadRequest, "invalid UUID"@),
        },
{
    match parse_uuid(id) {
        Some(manga_id) => {
            let enabled = settings.get_series_enabled(name, manga_id);
            let effective_enabled = settings.get_effective_enabled(name, manga_id);
            Ok(SeriesSettingsResponse { enabled, effective_enabled })
        },
        None => Err(bad_request("invalid UUID")),
    }
}

/// Enables or disables a provider for a series.
pub fn set_series_settings(settings: &mut ProviderSettings, id: &str, name: &str, body: &SetSeriesSettingsRequest) -> (r: Result<SeriesSettingsResponse, ApiFailure>)
    ensures
        match uuid_parsed(id@) {
            Some(m) => {
                &&& final(settings).enabled@ == old(settings).enabled@.insert((name@, Some(m)), body.enabled)
                &&& final(settings).versions@ == old(settings).versions@
                &&& r matches Ok(resp) && resp.enabled == Some(body.enabled) && resp.effective_enabled == body.enabled
            },
            None => *final(settings) == *old(settings) && (r matches Err(f) && is_failure(f, ApiStatus::BadRequest, "invalid UUID"@)),
        },
{
    match parse_uuid(id) {
        Some(manga_id) => {
            settings.set_series_enabled(name, manga_id, body.enabled);
            Ok(SeriesSettingsResponse { enabled: Some(body.enabled), effective_enabled: body.enabled })
        },
        None => Err(bad_request("invalid UUID")),
    }
}

/// Clears a provider's override for a series; the response gives the
/// provider-wide setting that applies again.
pub fn delete_series_settings(settings: &mut ProviderSettings, id: &str, name: &str) -> (r: Result<SeriesSettingsResponse, ApiFailure>)
    ensures
        match uuid_parsed(id@) {
            Some(m) => {
                &&& final(settings).enabled@ == old(settings).enabled@.remove((name@, Some(m)))
                &&& final(settings).versions@ == old(settings).versions@
                &&& r matches Ok(resp) && resp.enabled is None
                    && resp.effective_enabled == effective_enabled_spec(final(settings).enabled@, name@, m)
            },
            None => *final(settings) == *old(settings) && (r matches Err(f) && is_failure(f, ApiStatus::BadRequest, "invalid UUID"@)),
        },
{
    match parse_uuid(id) {
        Some(manga_id) => {
            settings.delete_series_setting(name, manga_id);
            let effective_enabled = settings.get_effective_enabled(name, manga_id);
            Ok(SeriesSettingsResponse { enabled: None, effective_enabled })
        },
        None => Err(bad_request("invalid UUID")),
    }
}

/// A series override decides whether the provider is enabled for that
/// series, whatever the provider-wide setting; other rows are unchanged.
pub proof fn law_series_setting_overrides_global(t: EnabledMap, name: Seq<char>, manga_id: u128, enabled: bool)
    ensures
        effective_enabled_spec(t.insert((name, Some(manga_id)), enabled), name, manga_id) == enabled,
        forall|k: (Seq<char>, Option<u128>)| k != (name, Some(manga_id)) ==> #[trigger] t.insert((name, Some(manga_id)), enabled).get(k)
            == t.get(k),
{
}

/// Clearing a series override reverts the series to the provider-wide setting.
pub proof fn law_cleared_series_setting_reverts_to_global(t: EnabledMap, name: Seq<char>, manga_id: u128)
    ensures
        effective_enabled_spec(t.remove((name, Some(manga_id))), name, manga_id) == global_enabled_spec(t, name),
{
    let t2 = t.remove((name, Some(manga_id)));
    assert(t2.get((name, None)) == t.get((name, None)));
}

} // verus!
