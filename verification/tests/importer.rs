use rebarr::comicinfo::Chapter;
use rebarr::importer::{
    cbz_file_stem, cbz_stem, chapter_number_text, classify_cbz, extract_title_from_filename,
    is_generic_chapter_title, plan_imported_chapter, push_unique, series_folders, tier_order, FolderEntry, ImportSummary,
    ImportTier, ParsedComicInfo, SeriesImportOutcome, SeriesImportSummary,
};

#[test]
fn tiers_order_rebarr_first() {
    assert_eq!(tier_order(&ImportTier::Rebarr), 0);
    assert_eq!(tier_order(&ImportTier::ComicInfo), 1);
    assert_eq!(tier_order(&ImportTier::Filename), 2);
}

#[test]
fn generic_titles_are_recognised() {
    assert!(is_generic_chapter_title("Chapter 43"));
    assert!(is_generic_chapter_title("  ch. 43"));
    assert!(is_generic_chapter_title("Ch.27.4"));
    assert!(is_generic_chapter_title("chapter172"));
    assert!(!is_generic_chapter_title("The Battle"));
    assert!(!is_generic_chapter_title("Chapter One"));
}

#[test]
fn titles_come_from_file_names() {
    assert_eq!(extract_title_from_filename("Chapter 43 - The Great Battle.cbz"), Some("The Great Battle".to_string()));
    assert_eq!(extract_title_from_filename("Ch.73 The Battle Begins.CBZ"), Some("The Battle Begins".to_string()));
    assert_eq!(extract_title_from_filename("Vol.4 Chapter 28 Title Here [Group].cbz"), Some("Title Here".to_string()));
    // The pattern backtracks into the number when nothing follows it.
    assert_eq!(extract_title_from_filename("Chapter 12.cbz"), Some("2".to_string()));
    assert_eq!(extract_title_from_filename("Chapter 1.cbz"), None);
    assert_eq!(extract_title_from_filename("random.cbz"), None);
    assert_eq!(cbz_file_stem("a.CBZ"), "a");
    assert_eq!(cbz_file_stem("a.zip"), "a.zip");
}

#[test]
fn numbers_come_from_file_names() {
    assert_eq!(chapter_number_text("Ch.73.cbz"), Some("73".to_string()));
    assert_eq!(chapter_number_text("Chapter 22.1.cbz"), Some("22.1".to_string()));
    assert_eq!(chapter_number_text("Chapter_014_5.cbz"), Some("014.5".to_string()));
    assert_eq!(chapter_number_text("Vol.4 Chapter 28.cbz"), Some("28".to_string()));
    assert_eq!(chapter_number_text("cover.cbz"), None);
}

fn info() -> ParsedComicInfo {
    ParsedComicInfo {
        anilist_id: Some(7),
        title: Some("Series".to_string()),
        has_chapter_number: true,
        chapter_title: Some("Chapter 3".to_string()),
        scanlator: Some("G".to_string()),
        language: Some("EN".to_string()),
        provider_name: Some("P".to_string()),
        is_extra: Some(true),
        chapter_uuid: None,
        released_at: Some(1),
        downloaded_at: None,
        scraped_at: Some(2),
    }
}

#[test]
fn cbz_files_are_classified() {
    let mut i = info();
    let c = classify_cbz(Some(&i), "x.cbz");
    assert_eq!(c.import_tier, ImportTier::ComicInfo);
    assert_eq!(c.chapter_title, None);
    assert_eq!(c.is_extra, None);
    assert_eq!(c.anilist_id, Some(7));
    i.chapter_uuid = Some(0x7a2f_4e10_c13b_5a80_b4e2_00c0_9d1a_77f3);
    i.chapter_title = Some("The End".to_string());
    let c = classify_cbz(Some(&i), "x.cbz");
    assert_eq!(c.import_tier, ImportTier::Rebarr);
    assert_eq!(c.chapter_uuid, Some("7a2f4e10-c13b-5a80-b4e2-00c09d1a77f3".to_string()));
    assert_eq!(c.is_extra, Some(true));
    assert_eq!(c.chapter_title, Some("The End".to_string()));
    let empty = ParsedComicInfo {
        anilist_id: None,
        title: None,
        has_chapter_number: false,
        chapter_title: Some("Ignored".to_string()),
        scanlator: Some("G".to_string()),
        language: None,
        provider_name: None,
        is_extra: None,
        chapter_uuid: None,
        released_at: Some(5),
        downloaded_at: None,
        scraped_at: None,
    };
    let c = classify_cbz(Some(&empty), "Chapter 9 - Rain.cbz");
    assert_eq!(c.import_tier, ImportTier::Filename);
    assert_eq!(c.chapter_title, Some("Rain".to_string()));
    assert_eq!(c.scanlator_group, None);
    assert_eq!(c.released_at, None);
    let c = classify_cbz(None, "Chapter 9.cbz");
    assert_eq!(c.import_tier, ImportTier::Filename);
    assert_eq!(c.chapter_title, None);
}

#[test]
fn imported_files_are_named_like_downloads() {
    let ch = Chapter {
        chapter_base: 12,
        chapter_variant: 5,
        title: Some("What? A/B".to_string()),
        number_raw: "12.5".to_string(),
        volume: None,
        scanlator_group: Some("G:roup".to_string()),
    };
    assert_eq!(cbz_stem(&ch), "Chapter 12.5 - What_ A_B [G_roup]");
    let ch = Chapter { chapter_base: 3, chapter_variant: 0, title: Some(String::new()), number_raw: "3.0".to_string(), volume: None, scanlator_group: None };
    assert_eq!(cbz_stem(&ch), "Chapter 3");
    let ch = Chapter {
        chapter_base: 3,
        chapter_variant: 0,
        title: Some("A/B: C".to_string()),
        number_raw: String::new(),
        volume: None,
        scanlator_group: Some("G?".to_string()),
    };
    assert_eq!(cbz_stem(&ch), "Chapter 3 - A_B_ C [G_]");
}

fn folder(name: &str) -> FolderEntry {
    FolderEntry { folder_name: name.to_string(), folder_path: format!("/lib/{name}"), cbz_count: 1 }
}

#[test]
fn series_folders_skip_hidden_and_sort() {
    let v = vec![folder("Naruto"), folder(".git"), folder(""), folder("Berserk"), folder("Akira")];
    let names: Vec<String> = series_folders(&v).into_iter().map(|f| f.folder_name).collect();
    assert_eq!(names, vec!["Akira", "Berserk", "Naruto"]);
}

#[test]
fn import_summaries_count() {
    let mut s = ImportSummary::new();
    s.record_moved();
    s.record_failed("/in/a.cbz", "manga x not found");
    assert_eq!((s.moved, s.skipped), (1, 1));
    assert_eq!(s.errors, vec!["/in/a.cbz: manga x not found".to_string()]);

    let mut t = SeriesImportSummary::new();
    t.record("/in/A", SeriesImportOutcome::Added(1));
    t.record("/in/B", SeriesImportOutcome::Duplicate(2));
    t.record("/in/C", SeriesImportOutcome::Failed("library not found".to_string()));
    assert_eq!((t.added, t.skipped_duplicates), (1, 1));
    assert_eq!(t.errors, vec!["/in/C: library not found".to_string()]);
    assert_eq!(
        t.manga_ids,
        vec![
            "00000000-0000-0000-0000-000000000001".to_string(),
            "00000000-0000-0000-0000-000000000002".to_string(),
            String::new(),
        ]
    );

    let mut ids = vec![3u128];
    push_unique(&mut ids, 3);
    push_unique(&mut ids, 4);
    assert_eq!(ids, vec![3, 4]);
}

#[test]
fn imported_chapters_keep_their_ids_or_get_new_ones() {
    let c = plan_imported_chapter(Some("7a2f4e10-c13b-5a80-b4e2-00c09d1a77f3"), None, None, None, 99);
    assert_eq!(c.id, 0x7a2f_4e10_c13b_5a80_b4e2_00c0_9d1a_77f3);
    assert_eq!(c.language, "EN");
    assert_eq!(c.provider_name, "Local");
    assert_eq!(c.downloaded_at, 99);
    let c = plan_imported_chapter(Some("not a uuid"), Some("fr"), Some("MangaDex"), Some(5), 99);
    assert_eq!(uuid::Uuid::from_u128(c.id).get_version_num(), 4);
    assert_eq!((c.language.as_str(), c.provider_name.as_str(), c.downloaded_at), ("fr", "MangaDex", 5));
}
