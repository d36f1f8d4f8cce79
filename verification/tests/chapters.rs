use rebarr::chapters::{build_chapter_list, format_found_ago, CanonicalOverride, ChapterRow};
use rebarr::text::first_word_of;

fn row(id: u128, base: i32, lang: &str, title: Option<&str>, score: i32, released: Option<i64>) -> ChapterRow {
    ChapterRow {
        id,
        manga_id: 9,
        chapter_base: base,
        chapter_variant: 0,
        filtered_title: title.map(|t| t.to_string()),
        filtered_scanlator_group: None,
        language: lang.to_string(),
        provider_name: Some("P".to_string()),
        chapter_url: None,
        download_status: "Missing".to_string(),
        released_at: released,
        downloaded_at: None,
        scraped_at: None,
        is_extra: false,
        score,
        matched_rules: vec![("Prefer".to_string(), score)],
        file_size_bytes: None,
        tags: vec![],
    }
}

#[test]
fn canonical_rows_merge_their_slot() {
    let rows = vec![
        row(1, 1, "EN", Some("Low"), 1, Some(300)),
        row(2, 1, "en", Some("High"), 5, Some(200)),
        row(3, 1, "EN", Some(""), 9, None),
        row(4, 1, "JP", Some("Other language"), 99, Some(100)),
        row(5, 2, "EN", None, 0, Some(50)),
    ];
    let list = build_chapter_list(&rows, "en", &vec![1, 5], &vec![CanonicalOverride { chapter_base: 1, chapter_variant: 0, chapter_id: 1 }]);
    // The Japanese row is not shown.
    assert_eq!(list.len(), 4);
    let first = &list[0];
    assert!(first.is_canonical);
    assert!(first.has_canonical_override);
    assert_eq!(first.title, Some("High".to_string()));
    assert_eq!(first.released_at, Some(200));
    assert_eq!(first.id, "00000000-0000-0000-0000-000000000001");
    assert_eq!(first.matched_rules, vec![("Prefer".to_string(), 1)]);
    let second = &list[1];
    assert!(!second.is_canonical);
    assert!(!second.has_canonical_override);
    assert_eq!(second.title, Some("High".to_string()));
    // A canonical row with no titled row in its slot shows no title.
    let last = &list[3];
    assert!(last.is_canonical);
    assert_eq!(last.title, None);
    assert_eq!(last.released_at, Some(50));
}

#[test]
fn no_preferred_language_shows_every_row() {
    let rows = vec![row(1, 1, "EN", Some("A"), 1, None), row(2, 1, "JP", Some("B"), 1, None)];
    assert_eq!(build_chapter_list(&rows, "", &vec![], &vec![]).len(), 2);
    let rows = vec![row(1, 1, "", Some("A"), 1, None)];
    assert_eq!(build_chapter_list(&rows, "fr", &vec![], &vec![]).len(), 1);
}

#[test]
fn found_ago_keeps_the_most_significant_unit() {
    assert_eq!(format_found_ago(0, 9420), "2h");
    assert_eq!(format_found_ago(1_000, 1_000 + 3 * 86_400 + 5), "3days");
    assert_eq!(format_found_ago(500, 530), "30s");
}

#[test]
fn found_ago_of_a_future_time_is_zero() {
    assert_eq!(format_found_ago(200, 100), "0s");
    assert_eq!(format_found_ago(i64::MAX, i64::MIN), "0s");
}

#[test]
fn first_word_skips_leading_whitespace() {
    assert_eq!(first_word_of("  hello world").as_deref(), Some("hello"));
    assert_eq!(first_word_of("one"), Some("one".to_string()));
    assert_eq!(first_word_of(" \t "), None);
}

#[test]
fn found_ago_names_the_largest_unit_with_plurals_on_calendar_units() {
    assert_eq!(format_found_ago(0, 2 * 31_557_600 + 5), "2years");
    assert_eq!(format_found_ago(0, 31_557_600), "1year");
    assert_eq!(format_found_ago(0, 2_630_016 + 86_400), "1month");
    assert_eq!(format_found_ago(0, 86_400), "1day");
    assert_eq!(format_found_ago(0, 61), "1m");
}
