use rebarr::anilist::{
    id_chunks, is_rate_limit_error, retry_on_error,
    cover_from_media_cover, format_to_string, is_supported_media_type, status_to_string, suggestion_bundle_from_media,
    suggestion_media_from_media, title_from_media_title, Media, MediaCoverImage, MediaFormat, MediaStatus, MediaTitle,
    MediaType, RecommendationNode, RelationEdge,
};
use rebarr::suggestions::SuggestionRelationKind;

fn title(english: Option<&str>, romaji: Option<&str>) -> MediaTitle {
    MediaTitle { romaji: romaji.map(String::from), english: english.map(String::from), native: None, user_preferred: None }
}

fn media(id: i32, format: MediaFormat) -> Media {
    Media {
        id: Some(id),
        media_type: Some(MediaType::Manga),
        format: Some(format),
        status: Some(MediaStatus::Releasing),
        title: Some(title(Some("Frieren"), Some("Sousou no Frieren"))),
        cover_image: Some(MediaCoverImage { extra_large: Some("xl".into()), large: None, medium: Some("m".into()) }),
        synopsis: Some("An elf.".into()),
        genres: Some(vec!["Adventure".into(), "Drama".into()]),
        tag_names: Some(vec![Some("drama".into()), None, Some("Elf".into()), Some("Magic".into())]),
        average_score: Some(90),
        popularity: Some(1000),
        favourites: Some(50),
    }
}

#[test]
fn only_manga_and_one_shots_are_supported() {
    assert!(is_supported_media_type(Some(MediaType::Manga), Some(MediaFormat::Manga)));
    assert!(is_supported_media_type(Some(MediaType::Manga), Some(MediaFormat::OneShot)));
    assert!(!is_supported_media_type(Some(MediaType::Manga), Some(MediaFormat::Novel)));
    assert!(!is_supported_media_type(Some(MediaType::Anime), Some(MediaFormat::Manga)));
    assert!(!is_supported_media_type(None, Some(MediaFormat::Manga)));
    assert_eq!(format_to_string(MediaFormat::OneShot), "OneShot");
    assert_eq!(status_to_string(MediaStatus::Finished), "Completed");
    assert_eq!(status_to_string(MediaStatus::Releasing), "Ongoing");
}

#[test]
fn titles_and_covers_follow_their_preference() {
    assert_eq!(title_from_media_title(&title(Some("E"), Some("R"))), Some("E".to_string()));
    assert_eq!(title_from_media_title(&title(None, Some("R"))), Some("R".to_string()));
    assert_eq!(title_from_media_title(&title(None, None)), None);
    let c = MediaCoverImage { extra_large: Some("xl".into()), large: None, medium: Some("m".into()) };
    assert_eq!(cover_from_media_cover(Some(&c)), Some("m".to_string()));
    assert_eq!(cover_from_media_cover(None), None);
}

#[test]
fn media_become_suggestions_with_merged_tags() {
    let s = suggestion_media_from_media(&media(154, MediaFormat::Manga)).unwrap();
    assert_eq!(s.anilist_id, 154);
    assert_eq!(s.title, "Frieren");
    assert_eq!(s.cover_url.as_deref(), Some("m"));
    assert_eq!(s.media_format.as_deref(), Some("Manga"));
    assert_eq!(s.publishing_status.as_deref(), Some("Ongoing"));
    assert_eq!(s.tags, vec!["Adventure", "Drama", "Elf", "Magic"]);
    assert!(suggestion_media_from_media(&media(1, MediaFormat::Novel)).is_none());
    let mut many = media(2, MediaFormat::Manga);
    many.tag_names = Some((0..10).map(|i| Some(format!("t{i}"))).collect());
    assert_eq!(suggestion_media_from_media(&many).unwrap().tags.len(), 8);
}

#[test]
fn bundles_keep_suggestible_targets_in_order() {
    let recs = Some(vec![
        RecommendationNode { rating: Some(5), media_recommendation: Some(media(1, MediaFormat::Manga)) },
        RecommendationNode { rating: Some(9), media_recommendation: Some(media(2, MediaFormat::Novel)) },
        RecommendationNode { rating: None, media_recommendation: None },
        RecommendationNode { rating: Some(-2), media_recommendation: Some(media(3, MediaFormat::OneShot)) },
    ]);
    let rels = Some(vec![
        RelationEdge { relation_type: Some(SuggestionRelationKind::Sequel), node: Some(media(4, MediaFormat::Manga)) },
        RelationEdge { relation_type: None, node: Some(media(5, MediaFormat::Manga)) },
    ]);
    let b = suggestion_bundle_from_media(&recs, &rels);
    assert_eq!(b.recommendations.iter().map(|r| (r.target.anilist_id, r.rating)).collect::<Vec<_>>(), vec![(1, Some(5)), (3, Some(-2))]);
    assert_eq!(b.relations.len(), 1);
    assert_eq!(b.relations[0].relation_type, SuggestionRelationKind::Sequel);
    assert!(suggestion_bundle_from_media(&None, &None).recommendations.is_empty());
}

#[test]
fn rate_limits_are_retried_while_attempts_remain() {
    assert!(is_rate_limit_error("HttpError(Status(429))"));
    assert!(is_rate_limit_error("RateLimitSimple"));
    assert!(is_rate_limit_error("too many requests: limit reached"));
    assert!(!is_rate_limit_error("NotFound"));
    assert!(retry_on_error(0, true));
    assert!(retry_on_error(1, true));
    assert!(!retry_on_error(2, true));
    assert!(!retry_on_error(0, false));
}

#[test]
fn ids_are_fetched_in_batches_of_fifty() {
    let ids: Vec<i32> = (1..=120).collect();
    let chunks = id_chunks(&ids);
    assert_eq!(chunks.iter().map(|c| c.len()).collect::<Vec<_>>(), vec![50, 50, 20]);
    assert_eq!(chunks[2][0], 101);
    assert!(id_chunks(&[]).is_empty());
    assert_eq!(id_chunks(&[7]), vec![vec![7]]);
}
