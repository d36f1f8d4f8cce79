use rebarr::suggestion_list::{get_for_library, CandidateRow, SourceRow};
use rebarr::suggestions::{SuggestionRelationKind, SuggestionSourceKind};

fn cand(target: i64, title: &str, refreshed_at: i64) -> CandidateRow {
    CandidateRow {
        target_anilist_id: target,
        title: title.to_string(),
        cover_url: None,
        synopsis: None,
        media_format: None,
        publishing_status: None,
        tags: vec!["Drama".to_string()],
        community_rating: Some(80),
        popularity: None,
        favourites: None,
        total_occurrences: 2,
        recommendation_occurrences: 1,
        relation_occurrences: 1,
        weighted_score_micros: 2_500_000,
        refreshed_at,
    }
}

fn src(id: &str, title: &str, target: i64, kind: &str, relation: Option<&str>) -> SourceRow {
    SourceRow {
        source_manga_id: id.to_string(),
        source_title: title.to_string(),
        target_anilist_id: target,
        source_kind: kind.to_string(),
        relation_type: relation.map(String::from),
        context: None,
        rating: Some(3),
    }
}

const A: &str = "00000000-0000-0000-0000-00000000000a";

#[test]
fn listed_suggestions_skip_library_series_and_carry_sources() {
    let candidates = vec![cand(10, "Ten", 100), cand(20, "Twenty", 300), cand(30, "Thirty", 200)];
    let sources = vec![
        src(A, "Alpha", 10, "Recommendation", None),
        src(A, "Alpha", 30, "Relation", Some("Sequel")),
        src(A, "Alpha", 10, "Relation", Some("Nonsense")),
    ];
    let list = get_for_library(7, candidates, &sources, &vec![20]).unwrap();
    assert_eq!(list.library_id, 7);
    assert_eq!(list.refreshed_at, Some(300));
    assert_eq!(list.suggestions.iter().map(|s| s.anilist_id).collect::<Vec<_>>(), vec![10, 30]);
    let ten = &list.suggestions[0];
    assert_eq!(ten.sources.len(), 2);
    assert_eq!(ten.sources[0].source_kind, SuggestionSourceKind::Recommendation);
    assert_eq!(ten.sources[1].relation_type, None);
    assert_eq!(list.suggestions[1].sources[0].relation_type, Some(SuggestionRelationKind::Sequel));
    assert_eq!(ten.sources[0].source_manga_id, 10);
}

#[test]
fn unreadable_source_ids_fail_the_listing() {
    let sources = vec![src("not-a-uuid", "Alpha", 10, "Recommendation", None)];
    assert!(get_for_library(1, vec![cand(10, "Ten", 1)], &sources, &vec![]).is_none());
    let empty = get_for_library(1, vec![], &vec![], &vec![]).unwrap();
    assert_eq!(empty.refreshed_at, None);
}
