use rebarr::provider_settings::{
    delete_series_settings, get_global_settings, get_series_settings, set_global_settings,
    set_series_settings, ProviderSettings, SetGlobalSettingsRequest, SetSeriesSettingsRequest,
};

const SERIES: &str = "7a2f4e10-c13b-5a80-b4e2-00c09d1a77f3";
const SERIES_ID: u128 = 0x7a2f_4e10_c13b_5a80_b4e2_00c0_9d1a_77f3;

#[test]
fn providers_are_enabled_until_disabled() {
    let mut s = ProviderSettings::new();
    assert!(s.get_global_enabled("X"));
    assert!(s.get_effective_enabled("X", SERIES_ID));
    assert_eq!(s.get_series_enabled("X", SERIES_ID), None);
    s.set_global_enabled("X", false);
    assert!(!s.get_effective_enabled("X", SERIES_ID));
    assert_eq!(s.get_globally_disabled(), vec!["X".to_string()]);
    s.set_series_enabled("X", SERIES_ID, true);
    assert!(s.get_effective_enabled("X", SERIES_ID));
    assert_eq!(s.get_all_series_overrides(SERIES_ID), vec![("X".to_string(), true)]);
    s.delete_series_setting("X", SERIES_ID);
    assert!(!s.get_effective_enabled("X", SERIES_ID));
}

#[test]
fn provider_versions_read_back() {
    let mut s = ProviderSettings::new();
    assert_eq!(s.get_version("X"), None);
    s.set_version("X", "1.2.0");
    s.set_version("Y", "0.1");
    s.set_version("X", "1.3.0");
    assert_eq!(s.get_version("X"), Some("1.3.0".to_string()));
    assert_eq!(s.get_version("Y"), Some("0.1".to_string()));
}

#[test]
fn settings_endpoints_follow_the_fallbacks() {
    let mut s = ProviderSettings::new();
    assert!(get_global_settings(&s, "X").enabled);
    assert!(!set_global_settings(&mut s, "X", &SetGlobalSettingsRequest { enabled: false }).enabled);
    let r = get_series_settings(&s, SERIES, "X").unwrap();
    assert_eq!((r.enabled, r.effective_enabled), (None, false));
    let r = set_series_settings(&mut s, SERIES, "X", &SetSeriesSettingsRequest { enabled: true }).unwrap();
    assert_eq!((r.enabled, r.effective_enabled), (Some(true), true));
    let r = delete_series_settings(&mut s, SERIES, "X").unwrap();
    assert_eq!((r.enabled, r.effective_enabled), (None, false));
    let e = get_series_settings(&s, "bad", "X").unwrap_err();
    assert_eq!(e.body.error, "invalid UUID");
}
