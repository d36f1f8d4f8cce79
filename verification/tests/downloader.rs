use rebarr::downloader::{
    attempt_failure_message, cbz_file_name, comic_info_stub, download_failure, download_order, image_ext,
    page_file_name, AttemptFailure, DownloadError,
};

#[test]
fn image_types_come_from_magic_bytes() {
    assert_eq!(image_ext(&[0xFF, 0xD8, 0xFF, 0xE0]), "jpg");
    assert_eq!(image_ext(b"\x89PNG\r\n"), "png");
    assert_eq!(image_ext(b"GIF89a"), "gif");
    assert_eq!(image_ext(b"RIFF\x00\x00\x00\x00WEBPVP8 "), "webp");
    assert_eq!(image_ext(b"RIFF\x00\x00\x00\x00WAVE"), "jpg");
    assert_eq!(image_ext(b"RIFF"), "jpg");
    assert_eq!(image_ext(b""), "jpg");
}

#[test]
fn pages_are_named_by_padded_index() {
    assert_eq!(page_file_name(7, b"\x89PNG"), "0007.png");
    assert_eq!(page_file_name(123, b"GIF8"), "0123.gif");
    assert_eq!(page_file_name(12345, b"xx"), "12345.jpg");
    assert_eq!(cbz_file_name("12.5"), "Chapter 12.5.cbz");
}

#[test]
fn comic_info_stub_holds_series_and_number() {
    let xml = comic_info_stub("One & Two", "3");
    assert!(xml.starts_with("<?xml version=\"1.0\" encoding=\"utf-8\"?>\n<ComicInfo"));
    assert!(xml.contains("  <Series>One & Two</Series>\n  <Number>3</Number>\n</ComicInfo>"));
}

#[test]
fn providers_are_tried_by_descending_score() {
    let entries = vec!["A".to_string(), "B".to_string(), "Gone".to_string(), "C".to_string(), "D".to_string()];
    let registry = vec![("A".to_string(), 10), ("B".to_string(), 30), ("C".to_string(), 10), ("D".to_string(), 30), ("A".to_string(), 5)];
    assert_eq!(download_order(&entries, &registry), vec![(1, 30), (4, 30), (3, 10), (0, 5)]);
    assert!(download_order(&vec![], &registry).is_empty());
}

#[test]
fn failed_attempts_leave_their_text() {
    assert_eq!(attempt_failure_message("MangaDex", "4", &AttemptFailure::ChapterNotFound), "chapter 4 not found on MangaDex");
    assert_eq!(attempt_failure_message("MangaDex", "4", &AttemptFailure::NoPages), "0 pages returned by MangaDex");
    assert_eq!(attempt_failure_message("X", "4", &AttemptFailure::ImagesFailed("timeout".to_string())), "timeout");
    assert!(matches!(download_failure(0, String::new()), DownloadError::NoProviders));
    let e = download_failure(2, "timeout".to_string());
    assert_eq!(e.message(), "all providers failed to download chapter timeout");
    assert_eq!(DownloadError::NoProviders.message(), "no provider URLs found for this manga \u{2014} run a scan first");
}
