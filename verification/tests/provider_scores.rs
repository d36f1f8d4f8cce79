use rebarr::provider_scores::{
    delete_global_score, delete_series_score, get_global_score, get_series_score, set_global_score,
    set_series_score, ProviderScores, ScoreSetting, SetGlobalScoreRequest, SetSeriesScoreRequest,
};
use rebarr::provider_table::{ProviderEntry, ProviderTable};

const SERIES: &str = "7a2f4e10-c13b-5a80-b4e2-00c09d1a77f3";
const SERIES_ID: u128 = 0x7a2f_4e10_c13b_5a80_b4e2_00c0_9d1a_77f3;

#[test]
fn effective_score_prefers_series_then_global_then_default() {
    let mut s = ProviderScores::new();
    assert_eq!(s.get_effective_score("MangaDex", SERIES_ID, 40), 40);
    s.upsert_global_score("MangaDex", 70, true);
    assert_eq!(s.get_effective_score("MangaDex", SERIES_ID, 40), 70);
    s.upsert_series("MangaDex", SERIES_ID, 90, false);
    assert_eq!(s.get_effective_score("MangaDex", SERIES_ID, 40), 90);
    assert_eq!(s.get_effective_score("MangaDex", 1, 40), 70);
    assert_eq!(s.get_series_score("MangaDex", SERIES_ID), Some(90));
    assert!(!s.get_enabled("MangaDex", SERIES_ID));
    assert!(s.get_enabled("MangaDex", 1));
}

#[test]
fn upsert_replaces_the_stored_score() {
    let mut s = ProviderScores::new();
    s.upsert_global_score("A", 1, true);
    s.upsert_global_score("A", 2, false);
    assert_eq!(s.get_global_score("A"), Some(2));
    assert!(!s.get_global_enabled("A"));
    assert_eq!(s.get_globally_disabled(), vec!["A".to_string()]);
    s.upsert_global_score("A", 2, true);
    assert!(s.get_globally_disabled().is_empty());
}

#[test]
fn loaded_scores_cover_defaults_and_rows_once_each() {
    let mut s = ProviderScores::new();
    s.upsert_global_score("B", 5, true);
    s.upsert_series("C", SERIES_ID, 7, true);
    s.upsert_series("D", 99, 8, true);
    let defaults = vec![("A".to_string(), 3), ("B".to_string(), 4)];
    let mut loaded = s.load_effective_scores(SERIES_ID, &defaults);
    loaded.sort();
    assert_eq!(loaded, vec![("A".to_string(), 3), ("B".to_string(), 5), ("C".to_string(), 7)]);
    let overrides = s.get_all_series_overrides(SERIES_ID);
    assert_eq!(overrides, vec![("C".to_string(), 7, true)]);
}

#[test]
fn series_score_responses_report_their_source() {
    let mut s = ProviderScores::new();
    let r = get_series_score(&s, SERIES, "P", 12).unwrap();
    assert_eq!((r.score, r.enabled, r.effective_score, r.score_source.as_str()), (None, true, 12, "default"));
    let g = set_global_score(&mut s, "P", &SetGlobalScoreRequest { score: 30, enabled: None }, 12);
    assert_eq!((g.score, g.enabled, g.default_score), (Some(30), true, 12));
    let r = get_series_score(&s, SERIES, "P", 12).unwrap();
    assert_eq!((r.effective_score, r.score_source.as_str()), (30, "global"));
    let r = set_series_score(&mut s, SERIES, "P", &SetSeriesScoreRequest { score: None, enabled: Some(false) }, 12).unwrap();
    assert_eq!((r.score, r.enabled, r.effective_score, r.score_source.as_str()), (Some(0), false, 0, "series"));
    let r = delete_series_score(&mut s, SERIES, "P", 12).unwrap();
    assert_eq!((r.score, r.enabled, r.effective_score, r.score_source.as_str()), (None, true, 30, "global"));
    let g = delete_global_score(&mut s, "P", 12);
    assert_eq!((g.score, g.enabled), (None, true));
    let g = get_global_score(&s, "P", 12);
    assert_eq!((g.score, g.enabled, g.default_score), (None, true, 12));
}

#[test]
fn series_score_requests_need_a_uuid() {
    let mut s = ProviderScores::new();
    let e = get_series_score(&s, "nope", "P", 0).unwrap_err();
    assert_eq!(e.body.error, "invalid UUID");
    assert!(set_series_score(&mut s, "nope", "P", &SetSeriesScoreRequest { score: Some(1), enabled: None }, 0).is_err());
    assert_eq!(s.get_series_score("P", SERIES_ID), None);
}

#[test]
fn stored_rows_load_with_later_rows_winning() {
    let row = |name: &str, manga: Option<u128>, score: i32| ProviderEntry { provider_name: name.to_string(), manga_id: manga, value: ScoreSetting { score, enabled: true } };
    let s = ProviderScores { table: ProviderTable::from_rows(vec![row("A", None, 1), row("A", Some(SERIES_ID), 2), row("A", None, 3)]) };
    assert_eq!(s.get_global_score("A"), Some(3));
    assert_eq!(s.get_series_score("A", SERIES_ID), Some(2));
}
