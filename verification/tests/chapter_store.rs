use rebarr::chapter_store::{last_chapter_at, manga_counts, upsert_from_scrape, ScrapedChapter, StoredChapter};
use rebarr::ids::chapter_uuid;

const MANGA: u128 = 0x1111_2222_3333_4444_5555_6666_7777_8888;

fn info(base: i32, title: Option<&str>, group: Option<&str>, extra: bool) -> ScrapedChapter {
    ScrapedChapter {
        chapter_base: base,
        chapter_variant: 0,
        is_extra: extra,
        title: title.map(|t| t.to_string()),
        language: None,
        scanlator_group: group.map(|g| g.to_string()),
        url: Some(format!("https://example.org/ch/{}", base)),
        date_released: Some(1_700_000_000 + base as i64),
    }
}

#[test]
fn new_chapters_become_missing_rows() {
    let mut rows: Vec<StoredChapter> = Vec::new();
    let infos = vec![info(1, Some("Start"), None, false), info(2, None, Some("Team"), false)];
    let fresh = upsert_from_scrape(&mut rows, MANGA, "MangaDex", &infos, 100);
    let id1 = chapter_uuid(MANGA, 1, 0, "EN", None, Some("MangaDex"));
    let id2 = chapter_uuid(MANGA, 2, 0, "EN", Some("Team"), Some("MangaDex"));
    assert_eq!(fresh, vec![id1, id2]);
    assert_eq!(rows.len(), 2);
    assert_eq!(rows[0].id, id1);
    assert_eq!(rows[0].language, "EN");
    assert_eq!(rows[0].download_status, "Missing");
    assert_eq!(rows[0].title.as_deref(), Some("Start"));
    assert_eq!(rows[0].scanlator_group.as_deref(), Some(""));
    assert_eq!(rows[0].provider_name.as_deref(), Some("MangaDex"));
    assert_eq!(rows[0].scraped_at, Some(100));
    assert_eq!(rows[1].title.as_deref(), Some(""));
    assert_eq!(rows[1].released_at, Some(1_700_000_002));
}

#[test]
fn rescraping_finds_nothing_new_and_fills_gaps() {
    let mut rows: Vec<StoredChapter> = Vec::new();
    let first = vec![info(1, Some("Start"), None, false), info(2, None, None, false)];
    upsert_from_scrape(&mut rows, MANGA, "MangaDex", &first, 100);
    rows[0].download_status = "Downloaded".to_string();
    let mut again = vec![info(1, Some("Renamed"), None, true), info(2, Some("Late title"), None, false)];
    again[0].url = Some("https://example.org/new".to_string());
    let fresh = upsert_from_scrape(&mut rows, MANGA, "MangaDex", &again, 200);
    assert!(fresh.is_empty());
    assert_eq!(rows.len(), 2);
    // A stored title is kept; an empty one is filled in.
    assert_eq!(rows[0].title.as_deref(), Some("Start"));
    assert_eq!(rows[1].title.as_deref(), Some("Late title"));
    // The link and scrape time are refreshed, the status kept, the extra flag set.
    assert_eq!(rows[0].chapter_url.as_deref(), Some("https://example.org/new"));
    assert_eq!(rows[0].scraped_at, Some(200));
    assert_eq!(rows[0].download_status, "Downloaded");
    assert!(rows[0].is_extra);
}

#[test]
fn extra_flag_is_never_cleared_by_a_scrape() {
    let mut rows: Vec<StoredChapter> = Vec::new();
    upsert_from_scrape(&mut rows, MANGA, "P", &[info(5, None, None, true)], 1);
    upsert_from_scrape(&mut rows, MANGA, "P", &[info(5, None, None, false)], 2);
    assert!(rows[0].is_extra);
}

#[test]
fn other_provider_or_language_is_another_row() {
    let mut rows: Vec<StoredChapter> = Vec::new();
    upsert_from_scrape(&mut rows, MANGA, "A", &[info(1, None, None, false)], 1);
    let fresh = upsert_from_scrape(&mut rows, MANGA, "B", &[info(1, None, None, false)], 2);
    assert_eq!(fresh.len(), 1);
    let mut fr = info(1, None, None, false);
    fr.language = Some("fr".to_string());
    let fresh = upsert_from_scrape(&mut rows, MANGA, "A", &[fr], 3);
    assert_eq!(fresh, vec![chapter_uuid(MANGA, 1, 0, "FR", None, Some("A"))]);
    assert_eq!(rows.len(), 3);
    assert_eq!(rows[2].language, "FR");
}

fn local(id: u128, base: i32, released: Option<i64>, downloaded: Option<i64>, scraped: Option<i64>) -> StoredChapter {
    StoredChapter {
        id,
        manga_id: MANGA,
        chapter_base: base,
        chapter_variant: 0,
        is_extra: false,
        title: None,
        language: "EN".to_string(),
        scanlator_group: None,
        provider_name: Some("Local".to_string()),
        chapter_url: None,
        download_status: "Downloaded".to_string(),
        released_at: released,
        downloaded_at: downloaded,
        scraped_at: scraped,
        file_size_bytes: None,
    }
}

#[test]
fn update_last_chapter_uses_latest_available_timestamp() {
    let rows = vec![local(1, 1, Some(100), None, Some(90)), local(2, 2, Some(110), Some(200), Some(120))];
    assert_eq!(last_chapter_at(&rows, MANGA), Some(200));
}

#[test]
fn update_last_chapter_returns_null_when_no_chapter_timestamps_exist() {
    let rows = vec![local(1, 1, None, None, None)];
    assert_eq!(last_chapter_at(&rows, MANGA), None);
}

#[test]
fn last_chapter_looks_only_at_the_series() {
    let mut other = local(3, 1, Some(999), None, None);
    other.manga_id = 5;
    let rows = vec![local(1, 1, Some(100), None, Some(90)), other];
    assert_eq!(last_chapter_at(&rows, MANGA), Some(100));
}

#[test]
fn counts_cover_canonical_rows_only() {
    let mut missing = local(2, 2, None, None, None);
    missing.download_status = "Missing".to_string();
    let rows = vec![local(1, 1, None, None, None), missing, local(3, 3, None, None, None)];
    assert_eq!(manga_counts(&rows, &vec![1, 2]), (2, 1));
    assert_eq!(manga_counts(&rows, &vec![]), (0, 0));
}
