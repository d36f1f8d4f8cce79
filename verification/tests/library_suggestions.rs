use rebarr::library_suggestions::{
    aggregate_suggestions, finish_candidates, rank_candidates, uncached_ids, RecommendationSuggestion,
    RelationSuggestion, SuggestionMedia, SuggestionMediaDetails, SuggestionSource,
};
use rebarr::suggestions::{SuggestionRelationKind, SuggestionSourceKind};

fn media(id: u32, community: Option<i32>, popularity: Option<i32>) -> SuggestionMedia {
    SuggestionMedia {
        anilist_id: id,
        title: format!("Series {id}"),
        cover_url: None,
        synopsis: None,
        media_format: Some("Manga".to_string()),
        publishing_status: None,
        tags: vec!["Action".to_string()],
        community_rating: community,
        popularity,
        favourites: None,
    }
}

fn rec(id: u32, rating: Option<i32>, community: Option<i32>, popularity: Option<i32>) -> RecommendationSuggestion {
    RecommendationSuggestion { target: media(id, community, popularity), rating }
}

fn rel(id: u32, kind: SuggestionRelationKind) -> RelationSuggestion {
    RelationSuggestion { target: media(id, None, None), relation_type: kind }
}

fn sources() -> Vec<SuggestionSource> {
    vec![
        SuggestionSource {
            source_manga_id: 100,
            source_title: "Alpha".to_string(),
            source_anilist_id: 1,
            recommendations: vec![rec(10, Some(50), Some(80), Some(1000)), rec(2, None, None, None), rec(1, None, None, None)],
            relations: vec![rel(10, SuggestionRelationKind::Sequel), rel(11, SuggestionRelationKind::SideStory)],
        },
        SuggestionSource {
            source_manga_id: 200,
            source_title: "Beta".to_string(),
            source_anilist_id: 2,
            recommendations: vec![rec(11, None, None, None), rec(12, Some(-3), None, Some(5))],
            relations: vec![],
        },
    ]
}

fn details(community: Option<i32>, popularity: Option<i32>) -> SuggestionMediaDetails {
    SuggestionMediaDetails { synopsis: Some("S".to_string()), community_rating: community, popularity, favourites: Some(1) }
}

#[test]
fn suggestions_are_gathered_per_series() {
    let (aggs, rows) = aggregate_suggestions(&vec![1, 2], &sources());
    let summary: Vec<(u32, i32, i32, i32, i64)> = aggs
        .iter()
        .map(|a| (a.meta.anilist_id, a.total_occurrences, a.recommendation_occurrences, a.relation_occurrences, a.weight))
        .collect();
    assert_eq!(summary, vec![(10, 2, 1, 1, 2_400_000), (11, 2, 1, 1, 2_350_000), (12, 1, 1, 0, 997_000)]);
    let contexts: Vec<(u128, u32, SuggestionSourceKind, Option<String>, Option<i32>)> = rows
        .into_iter()
        .map(|r| (r.source_manga_id, r.target_anilist_id, r.source_kind, r.context, r.rating))
        .collect();
    assert_eq!(
        contexts,
        vec![
            (100, 10, SuggestionSourceKind::Recommendation, Some("Recommended from Alpha".to_string()), Some(50)),
            (100, 10, SuggestionSourceKind::Relation, Some("Sequel to Alpha".to_string()), None),
            (100, 11, SuggestionSourceKind::Relation, Some("Side story to Alpha".to_string()), None),
            (200, 11, SuggestionSourceKind::Recommendation, Some("Recommended from Beta".to_string()), None),
            (200, 12, SuggestionSourceKind::Recommendation, Some("Recommended from Beta".to_string()), Some(-3)),
        ]
    );
}

#[test]
fn details_complete_and_scores_rank() {
    let (aggs, _) = aggregate_suggestions(&vec![1, 2], &sources());
    let fetched = vec![(11u32, details(Some(70), Some(2_000_000)))];
    let cached = vec![(12u32, details(Some(60), None)), (11u32, details(Some(1), Some(1)))];
    assert_eq!(uncached_ids(&aggs, &cached), vec![10]);
    assert_eq!(uncached_ids(&aggs, &vec![]), vec![10, 11, 12]);
    let finished = finish_candidates(aggs, &fetched, &cached);
    let scores: Vec<(u32, i64, Option<i32>, Option<String>)> = finished
        .iter()
        .map(|c| (c.anilist_id, c.weighted_score_micros, c.community_rating, c.synopsis.clone()))
        .collect();
    assert_eq!(
        scores,
        vec![
            (10, 2_631_000, Some(80), None),
            (11, 4_570_000, Some(70), Some("S".to_string())),
            (12, 1_057_005, Some(60), Some("S".to_string())),
        ]
    );
    let ranked: Vec<u32> = rank_candidates(finished).into_iter().map(|c| c.anilist_id).collect();
    assert_eq!(ranked, vec![11, 10, 12]);
}

#[test]
fn ties_rank_by_counts_then_title() {
    let only = vec![SuggestionSource {
        source_manga_id: 1,
        source_title: "X".to_string(),
        source_anilist_id: 1,
        recommendations: vec![rec(30, None, None, None), rec(20, None, None, None)],
        relations: vec![],
    }];
    let (aggs, _) = aggregate_suggestions(&vec![], &only);
    let ranked: Vec<String> = rank_candidates(finish_candidates(aggs, &vec![], &vec![])).into_iter().map(|c| c.title).collect();
    assert_eq!(ranked, vec!["Series 20".to_string(), "Series 30".to_string()]);
}
