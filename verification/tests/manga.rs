use rebarr::ids::{manga_uuid, manual_manga_uuid, uuid_string};
use rebarr::manga::{
    added_manga_id, check_add_manga, duplicate_message, metadata_source_str, monitored_on_add,
    parse_metadata_source, parse_publishing_status, plan_manual_manga, provider_search_titles, publishing_status_str,
    update_synonyms, AddMangaManualRequest, AddMangaRequest, MangaSource, PublishingStatus, Synonym,
    SynonymSource, UpdateSynonymsRequest,
};

#[test]
fn status_names_round_trip() {
    for s in [
        PublishingStatus::Completed,
        PublishingStatus::Ongoing,
        PublishingStatus::Hiatus,
        PublishingStatus::Cancelled,
        PublishingStatus::NotYetReleased,
        PublishingStatus::Unknown,
    ] {
        assert_eq!(parse_publishing_status(publishing_status_str(&s)), s);
    }
    assert_eq!(parse_publishing_status("Finished"), PublishingStatus::Unknown);
    for s in [MangaSource::AniList, MangaSource::Local] {
        assert_eq!(parse_metadata_source(metadata_source_str(&s)), s);
    }
    assert_eq!(parse_metadata_source("MAL"), MangaSource::Local);
}

fn syn(title: &str, source: SynonymSource, hidden: bool) -> Synonym {
    Synonym { title: title.to_string(), source, hidden, filter_reason: None }
}

fn strs(v: &[&str]) -> Option<Vec<String>> {
    Some(v.iter().map(|s| s.to_string()).collect())
}

#[test]
fn synonyms_are_added_hidden_and_removed() {
    let start = vec![
        syn("Kenpuu Denki", SynonymSource::AniList, false),
        syn("Old Manual", SynonymSource::Manual, false),
        syn(" Spaced ", SynonymSource::AniList, false),
    ];
    let req = UpdateSynonymsRequest {
        add: strs(&["  New One ", "Old Manual", "", "New One"]),
        hide: strs(&["Spaced", "Old Manual"]),
        remove: strs(&["Old Manual", "Kenpuu Denki", "  "]),
    };
    let out = update_synonyms(start, &req);
    let view: Vec<(String, SynonymSource, bool, Option<String>)> =
        out.into_iter().map(|s| (s.title, s.source, s.hidden, s.filter_reason)).collect();
    assert_eq!(
        view,
        vec![
            ("Kenpuu Denki".to_string(), SynonymSource::AniList, false, None),
            (" Spaced ".to_string(), SynonymSource::AniList, true, Some("manual".to_string())),
            ("New One".to_string(), SynonymSource::Manual, false, None),
        ]
    );
}

#[test]
fn add_requests_are_checked() {
    let lib = 0x1234u128;
    let req = AddMangaRequest { anilist_id: 1, library_id: uuid_string(lib), relative_path: "Berserk".to_string() };
    assert_eq!(check_add_manga(&req).unwrap(), lib);
    let bad = AddMangaRequest { anilist_id: 1, library_id: "nope".to_string(), relative_path: "Berserk".to_string() };
    assert_eq!(check_add_manga(&bad).unwrap_err().body.error, "invalid library_id UUID");
    let blank = AddMangaRequest { anilist_id: 1, library_id: "nope".to_string(), relative_path: " ".to_string() };
    assert_eq!(check_add_manga(&blank).unwrap_err().body.error, "relative_path cannot be empty");
    assert_eq!(added_manga_id(Some(5), "x"), manga_uuid(5));
    assert_eq!(added_manga_id(None, "  Berserk "), manual_manga_uuid("Berserk"));
    assert!(!monitored_on_add(true, PublishingStatus::Completed));
    assert!(monitored_on_add(false, PublishingStatus::Completed));
    assert!(monitored_on_add(true, PublishingStatus::Ongoing));
    let d = duplicate_message("Berserk", 1);
    assert_eq!(d.status.code(), 409);
    assert_eq!(d.body.error, "This manga (Berserk) already exists in this library with ID: 00000000-0000-0000-0000-000000000001");
}

#[test]
fn manual_series_are_built_from_requests() {
    let lib = 77u128;
    let req = AddMangaManualRequest {
        library_id: uuid_string(lib),
        relative_path: " Home Made ".to_string(),
        title: "  Home Made  ".to_string(),
        other_titles: strs(&[" Alt ", "   "]),
        synopsis: Some("   ".to_string()),
        publishing_status: Some(PublishingStatus::Completed),
        tags: strs(&["Slice of Life"]),
        start_year: Some(2001),
        end_year: None,
        cover_url: Some(String::new()),
    };
    let m = plan_manual_manga(&req, true).unwrap();
    assert_eq!(m.id, manual_manga_uuid("Home Made"));
    assert_eq!(m.library_id, lib);
    assert_eq!(m.title, "Home Made");
    assert_eq!(m.relative_path, "Home Made");
    let titles: Vec<String> = m.other_titles.unwrap().into_iter().map(|s| s.title).collect();
    assert_eq!(titles, vec!["Alt".to_string()]);
    assert_eq!(m.synopsis, None);
    assert_eq!(m.thumbnail_url, None);
    assert!(!m.monitored);
    let mut untitled = req;
    untitled.title = " ".to_string();
    assert_eq!(plan_manual_manga(&untitled, false).unwrap_err().body.error, "title cannot be empty");
}

#[test]
fn providers_are_searched_with_visible_titles_once_each() {
    let syn = |t: &str, hidden: bool| Synonym { title: t.to_string(), source: SynonymSource::AniList, hidden, filter_reason: None };
    let others = Some(vec![syn("Sousou no Frieren", false), syn("Hidden", true), syn("  ", false), syn("Frieren", false), syn("Apothecary", false)]);
    assert_eq!(provider_search_titles("Frieren", &others), vec!["Apothecary", "Frieren", "Sousou no Frieren"]);
    assert_eq!(provider_search_titles("Solo", &None), vec!["Solo"]);
}
