use rebarr::ids::{chapter_uuid, CHAPTER_NAMESPACE};
use rebarr::scanner::{
    chapter_number_word, checked_time, missing_chapter_actions, missing_file_action, placeholder_chapter_id,
    plan_disk_scan, scanned_chapter_identity, scanned_release_time, year_start_timestamp, DiskStep,
    DownloadedChapter, MissingFileAction, ScannedComicInfo, ScannedFile, END_TIMESTAMP, FIRST_TIMESTAMP,
};

#[test]
fn chapter_files_give_their_number_word() {
    assert_eq!(chapter_number_word("Chapter 12.cbz"), Some("12".to_string()));
    assert_eq!(chapter_number_word("Chapter 1.5 - Title [Group].cbz"), Some("1.5".to_string()));
    assert_eq!(chapter_number_word("Chapter   7 x.cbz"), Some("7".to_string()));
    assert_eq!(chapter_number_word("Chapter .cbz"), Some(String::new()));
    assert_eq!(chapter_number_word("chapter 12.cbz"), None);
    assert_eq!(chapter_number_word("Chapter 12.zip"), None);
    assert_eq!(chapter_number_word("cover.jpg"), None);
}

#[test]
fn year_starts() {
    assert_eq!(year_start_timestamp(1970), Some(0));
    assert_eq!(year_start_timestamp(2000), Some(946_684_800));
    assert_eq!(year_start_timestamp(2024), Some(1_704_067_200));
    assert_eq!(year_start_timestamp(1969), Some(-31_536_000));
    assert_eq!(year_start_timestamp(1), Some(-62_135_596_800));
    assert_eq!(year_start_timestamp(0), Some(-62_167_219_200));
    assert_eq!(year_start_timestamp(300_000), None);
    assert_eq!(year_start_timestamp(-300_000), None);
}

fn ci() -> ScannedComicInfo {
    ScannedComicInfo {
        chapter_uuid: None,
        chapter_title: None,
        language: None,
        scanlator: Some("G".to_string()),
        provider_name: None,
        chapter_url: None,
        released_at: None,
        downloaded_at: None,
        scraped_at: None,
        release_year: Some(2000),
    }
}

#[test]
fn files_with_comicinfo_are_identified() {
    let m = 42u128;
    let (lang, id) = scanned_chapter_identity(m, 3, 0, &ci());
    assert_eq!(lang, "EN");
    assert_eq!(id, chapter_uuid(m, 3, 0, "EN", Some("G"), None));
    let mut with_id = ci();
    with_id.chapter_uuid = Some(7);
    with_id.language = Some("fr".to_string());
    assert_eq!(scanned_chapter_identity(m, 3, 0, &with_id), ("fr".to_string(), 7));
    assert_ne!(placeholder_chapter_id(m, 3, 0), CHAPTER_NAMESPACE);
    assert_eq!(placeholder_chapter_id(m, 3, 0), chapter_uuid(m, 3, 0, "EN", None, None));
}

#[test]
fn release_times_fall_back_to_the_year_for_old_files() {
    assert_eq!(scanned_release_time(&ci()), Some(946_684_800));
    let mut with_id = ci();
    with_id.chapter_uuid = Some(7);
    assert_eq!(scanned_release_time(&with_id), None);
    with_id.released_at = Some(5);
    assert_eq!(scanned_release_time(&with_id), Some(5));
    // A stored time that dates cannot hold counts as none.
    let mut far = ci();
    far.released_at = Some(i64::MAX);
    assert_eq!(scanned_release_time(&far), Some(946_684_800));
    assert_eq!(checked_time(Some(END_TIMESTAMP)), None);
    assert_eq!(checked_time(Some(END_TIMESTAMP - 1)), Some(END_TIMESTAMP - 1));
    assert_eq!(checked_time(Some(FIRST_TIMESTAMP)), Some(FIRST_TIMESTAMP));
}

#[test]
fn gone_files_delete_local_chapters_and_mark_others_missing() {
    assert_eq!(missing_file_action(None), MissingFileAction::Delete);
    assert_eq!(missing_file_action(Some("LOCAL")), MissingFileAction::Delete);
    assert_eq!(missing_file_action(Some("MangaDex")), MissingFileAction::MarkMissing);
    let downloaded = vec![
        DownloadedChapter { id: 1, provider_name: Some("Local".to_string()) },
        DownloadedChapter { id: 2, provider_name: Some("MangaDex".to_string()) },
        DownloadedChapter { id: 3, provider_name: None },
    ];
    assert_eq!(
        missing_chapter_actions(&downloaded, &vec![3]),
        vec![(1, MissingFileAction::Delete), (2, MissingFileAction::MarkMissing)]
    );
}

fn file(base: i32, info: Option<ScannedComicInfo>) -> ScannedFile {
    ScannedFile { chapter_base: base, chapter_variant: 0, comic_info: info, modified_at: Some(500), file_size: Some(1234) }
}

#[test]
fn disk_scan_plans_every_file_as_downloaded() {
    let m = 42u128;
    let mut with_info = ci();
    with_info.chapter_title = Some("One".to_string());
    with_info.downloaded_at = Some(400);
    let files = vec![file(1, Some(with_info)), file(2, None), file(3, None)];
    // Chapter 2 has a canonical chapter (id 20) not yet downloaded.
    let canonical = vec![(2, 0, 20u128, false), (4, 0, 40u128, true)];
    let downloaded = vec![
        DownloadedChapter { id: 40, provider_name: Some("MangaDex".to_string()) },
        DownloadedChapter { id: 99, provider_name: None },
        DownloadedChapter { id: 20, provider_name: Some("MangaDex".to_string()) },
    ];
    let plan = plan_disk_scan(m, &files, &canonical, &downloaded);
    let id1 = chapter_uuid(m, 1, 0, "EN", Some("G"), None);
    let id3 = chapter_uuid(m, 3, 0, "EN", None, None);
    assert_eq!(plan.found, vec![id1, 20, id3]);
    match &plan.steps[0] {
        DiskStep::InsertDownloaded(c) => {
            assert_eq!(c.id, id1);
            assert_eq!(c.download_status, "Downloaded");
            assert_eq!(c.title.as_deref(), Some("One"));
            assert_eq!(c.downloaded_at, Some(400));
            assert_eq!(c.released_at, Some(946_684_800));
            assert_eq!(c.file_size_bytes, Some(1234));
        },
        other => panic!("unexpected step {:?}", other),
    }
    match &plan.steps[1] {
        DiskStep::MarkDownloaded { id, mark, downloaded_at, file_size } => {
            assert_eq!((*id, *mark, *downloaded_at, *file_size), (20, true, Some(500), Some(1234)));
        },
        other => panic!("unexpected step {:?}", other),
    }
    match &plan.steps[2] {
        DiskStep::InsertPlaceholder(c) => {
            assert_eq!(c.id, id3);
            assert_eq!(c.language, "EN");
            assert_eq!(c.download_status, "Downloaded");
            assert_eq!(c.downloaded_at, Some(500));
        },
        other => panic!("unexpected step {:?}", other),
    }
    // Chapter 20 was found on disk without ComicInfo: it is not swept.
    assert_eq!(plan.cleanup, vec![(40, MissingFileAction::MarkMissing), (99, MissingFileAction::Delete)]);
}
