use rebarr::comicinfo::{
    generate_chapter_xml, generate_series_xml, join_tags, opt_int_elem, opt_str_elem, xml_escape,
    Chapter, Manga, MangaMetadata,
};

const HEADER: &str = "<?xml version=\"1.0\" encoding=\"utf-8\"?>\n<ComicInfo xmlns:xsd=\"http://www.w3.org/2001/XMLSchema\"\nxmlns:xsi=\"http://www.w3.org/2001/XMLSchema-instance\">\n";

fn manga() -> Manga {
    Manga {
        anilist_id: Some(30013),
        metadata: MangaMetadata {
            title: "One Piece".to_string(),
            title_roman: "ONE PIECE".to_string(),
            title_og: "ワンピース".to_string(),
            synopsis: Some("Pirates & treasure".to_string()),
            start_year: Some(1997),
            tags: vec!["Action".to_string(), "Adventure".to_string()],
        },
    }
}

#[test]
fn escapes_xml_specials() {
    assert_eq!(xml_escape("a & b <c> \"d\" 'e'"), "a &amp; b &lt;c&gt; &quot;d&quot; &apos;e&apos;");
    assert_eq!(xml_escape("plain"), "plain");
    // Each character is escaped once: an existing entity is escaped again.
    assert_eq!(xml_escape("&amp;"), "&amp;amp;");
}

#[test]
fn optional_elements() {
    assert_eq!(opt_str_elem("Title", Some("A<B")), "  <Title>A&lt;B</Title>\n");
    assert_eq!(opt_str_elem("Title", Some("")), "");
    assert_eq!(opt_str_elem("Title", None), "");
    assert_eq!(opt_int_elem("Year", Some(-5)), "  <Year>-5</Year>\n");
    assert_eq!(opt_int_elem("Year", None), "");
    assert_eq!(join_tags(&vec!["a".to_string(), "b".to_string(), "c".to_string()]), "a, b, c");
    assert_eq!(join_tags(&vec![]), "");
}

#[test]
fn series_xml() {
    let expected = format!(
        "{HEADER}  <Series>One Piece</Series>\n  <AlternateSeries>ONE PIECE</AlternateSeries>\n  <Summary>Pirates &amp; treasure</Summary>\n  <Year>1997</Year>\n  <Genre>Action, Adventure</Genre>\n  <Manga>Yes</Manga>\n  <Web>https://anilist.co/manga/30013</Web>\n</ComicInfo>\n"
    );
    assert_eq!(generate_series_xml(&manga()), expected);
}

#[test]
fn series_xml_falls_back_to_native_title() {
    let mut m = manga();
    m.metadata.title_roman = "One Piece".to_string();
    m.metadata.synopsis = None;
    m.metadata.start_year = None;
    m.metadata.tags = vec![];
    m.anilist_id = None;
    let expected = format!(
        "{HEADER}  <Series>One Piece</Series>\n  <AlternateSeries>ワンピース</AlternateSeries>\n  <Manga>Yes</Manga>\n</ComicInfo>\n"
    );
    assert_eq!(generate_series_xml(&m), expected);
}

#[test]
fn chapter_xml() {
    let ch = Chapter {
        chapter_base: 1,
        chapter_variant: 5,
        title: Some("Romance Dawn".to_string()),
        number_raw: "1.5".to_string(),
        volume: Some(1),
        scanlator_group: Some("Group <X>".to_string()),
    };
    let expected = format!(
        "{HEADER}  <Title>Romance Dawn</Title>\n  <Series>One Piece</Series>\n  <AlternateSeries>ONE PIECE</AlternateSeries>\n  <Number>1.5</Number>\n  <Volume>1</Volume>\n  <Year>1997</Year>\n  <Summary>Pirates &amp; treasure</Summary>\n  <Genre>Action, Adventure</Genre>\n  <Manga>Yes</Manga>\n  <Web>https://anilist.co/manga/30013</Web>\n  <ScanInformation>Group &lt;X&gt;</ScanInformation>\n  <PageCount>24</PageCount>\n</ComicInfo>\n"
    );
    assert_eq!(generate_chapter_xml(&manga(), &ch, 24), expected);
    let bare = Chapter { chapter_base: 7, chapter_variant: 0, title: None, number_raw: "7".to_string(), volume: None, scanlator_group: None };
    let out = generate_chapter_xml(&manga(), &bare, 0);
    assert!(!out.contains("PageCount"));
    assert!(!out.contains("<Title>"));
    assert!(out.contains("  <Number>7</Number>\n"));
}

#[test]
fn chapter_xml_carries_every_series_element() {
    let ch = Chapter {
        chapter_base: 12,
        chapter_variant: 0,
        title: Some("A <b> & c".to_string()),
        number_raw: "12".to_string(),
        volume: Some(2),
        scanlator_group: None,
    };
    let series = generate_series_xml(&manga());
    let chapter = generate_chapter_xml(&manga(), &ch, 3);
    for line in series.lines().filter(|l| l.starts_with("  <")) {
        assert!(chapter.lines().any(|c| c == line), "missing {line}");
    }
    assert_eq!(chapter.matches("  <Number>12</Number>\n").count(), 1);
}
