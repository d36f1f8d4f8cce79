use rebarr::cli::{
    chapter_label, local_page_name, safe_title, scan_providers, select_provider, succeeded_count, test_mode, TestMode,
};

#[test]
fn test_mode_follows_query_and_update() {
    assert_eq!(test_mode(false, false), TestMode::FixtureRun);
    assert_eq!(test_mode(true, true), TestMode::FixtureUpdate);
    assert_eq!(test_mode(false, true), TestMode::FixtureUpdate);
    assert_eq!(test_mode(true, false), TestMode::Interactive);
}

#[test]
fn providers_are_chosen_by_name_ignoring_case() {
    let names = vec!["MangaDex".to_string(), "Comick".to_string(), "mangadex".to_string()];
    assert_eq!(select_provider(&names, Some("MANGADEX")), Some(0));
    assert_eq!(select_provider(&names, Some("comick")), Some(1));
    assert_eq!(select_provider(&names, Some("Other")), None);
    assert_eq!(select_provider(&names, None), Some(0));
    assert_eq!(select_provider(&vec![], None), None);
    assert_eq!(scan_providers(&names, Some("mangadex")), vec![0, 2]);
    assert_eq!(scan_providers(&names, None), vec![0, 1, 2]);
}

#[test]
fn cli_names_and_labels() {
    assert_eq!(chapter_label(Some(12)), "Ch.12");
    assert_eq!(chapter_label(None), "\u{2014}");
    assert_eq!(local_page_name(7, "png"), "007.png");
    assert_eq!(local_page_name(1234, "jpg"), "1234.jpg");
    assert_eq!(safe_title("Solo Leveling: Ragnarök!"), "Solo Leveling_ Ragnarök_");
    assert_eq!(succeeded_count(&vec![None, Some("no results".to_string()), None]), 2);
}
