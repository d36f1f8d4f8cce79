//! A library's stored suggestions as the API lists them: the visible
//! candidates that are not already in the library, each with the library
//! series that suggested it.

use vstd::prelude::*;
use crate::manga::{parse_uuid, uuid_parsed};
use crate::suggestions::{
    parse_relation_kind, parse_relation_kind_spec, SuggestionRelationKind, SuggestionSourceKind,
};
use crate::text::{clone_opt, str_eq};

verus! {

/// A stored candidate, in the stored ranking order. The score is in millionths.
#[derive(Debug)]
pub struct CandidateRow {
    pub target_anilist_id: i64,
    pub title: String,
    pub cover_url: Option<String>,
    pub synopsis: Option<String>,
    pub media_format: Option<String>,
    pub publishing_status: Option<String>,
    /// The stored tags, empty when none are stored or they do not read as a list.
    pub tags: Vec<String>,
    pub community_rating: Option<i32>,
    pub popularity: Option<i32>,
    pub favourites: Option<i32>,
    pub total_occurrences: i32,
    pub recommendation_occurrences: i32,
    pub relation_occurrences: i32,
    pub weighted_score_micros: i64,
    pub refreshed_at: i64,
}

/// A stored source of a suggestion.
#[derive(Debug)]
pub struct SourceRow {
    pub source_manga_id: String,
    pub source_title: String,
    pub target_anilist_id: i64,
    pub source_kind: String,
    pub relation_type: Option<String>,
    pub context: Option<String>,
    pub rating: Option<i32>,
}

/// A library series that suggested a candidate.
#[derive(Debug)]
pub struct SuggestionSourceRecord {
    pub source_manga_id: u128,
    pub source_title: String,
    pub source_kind: SuggestionSourceKind,
    pub relation_type: Option<SuggestionRelationKind>,
    pub context: Option<String>,
    pub rating: Option<i32>,
}

/// A suggestion as the API lists it. The score is in millionths.
#[derive(Debug)]
pub struct LibrarySuggestion {
    pub anilist_id: u32,
    pub title: String,
    pub cover_url: Option<String>,
    pub synopsis: Option<String>,
    pub media_format: Option<String>,
    pub publishing_status: Option<String>,
    pub tags: Vec<String>,
    pub community_rating: Option<i32>,
    pub popularity: Option<i32>,
    pub favourites: Option<i32>,
    pub total_occurrences: i32,
    pub recommendation_occurrences: i32,
    pub relation_occurrences: i32,
    pub weighted_score_micros: i64,
    pub refreshed_at: i64,
    pub sources: Vec<SuggestionSourceRecord>,
}

/// A library's suggestions.
#[derive(Debug)]
pub struct LibrarySuggestionList {
    pub library_id: u128,
    /// When the suggestions were last refreshed: the latest refresh among the candidates.
    pub refreshed_at: Option<i64>,
    pub suggestions: Vec<LibrarySuggestion>,
}

/// The kind a stored source names: "Recommendation", else a relation.
pub open spec fn source_kind_of(s: Seq<char>) -> SuggestionSourceKind {
    if s == "Recommendation"@ {
        SuggestionSourceKind::Recommendation
    } else {
        SuggestionSourceKind::Relation
    }
}

/// The record that a source row gives, when its series id reads as a UUID.
pub open spec fn record_of(row: SourceRow) -> Option<SuggestionSourceRecord> {
    match uuid_parsed(row.source_manga_id@) {
        None => None,
        Some(id) => Some(
            SuggestionSourceRecord {
                source_manga_id: id,
                source_title: row.source_title,
                source_kind: source_kind_of(row.source_kind@),
                relation_type: parse_relation_kind_spec(
                    match row.relation_type {
                        Some(s) => Some(s@),
                        None => None,
                    },
                ),
                context: row.context,
                rating: row.rating,
            },
        ),
    }
}

/// Every source row's series id reads as a UUID.
pub open spec fn sources_readable(rows: Seq<SourceRow>) -> bool {
    forall|i: int| 0 <= i < rows.len() ==> #[trigger] record_of(rows[i]) is Some
}

/// The records of the source rows for `target`, in row order.
pub open spec fn records_for(rows: Seq<SourceRow>, target: i64) -> Seq<SuggestionSourceRecord>
    decreases rows.len(),
{
    if rows.len() == 0 {
        Seq::empty()
    } else {
        let rest = records_for(rows.drop_last(), target);
        if rows.last().target_anilist_id == target {
            rest.push(record_of(rows.last()).unwrap())
        } else {
            rest
        }
    }
}

/// The latest refresh among the candidates.
pub open spec fn latest_refresh(c: Seq<CandidateRow>) -> Option<i64>
    decreases c.len(),
{
    if c.len() == 0 {
        None
    } else {
        match latest_refresh(c.drop_last()) {
            Some(t) => if t >= c.last().refreshed_at {
                Some(t)
            } else {
                Some(c.last().refreshed_at)
            },
            None => Some(c.last().refreshed_at),
        }
    }
}

/// Whether a candidate is shown: its series is not in the library.
pub open spec fn shown(existing: Seq<i64>) -> spec_fn(CandidateRow) -> bool {
    |c: CandidateRow| !existing.contains(c.target_anilist_id)
}

/// The suggestion a shown candidate becomes, with the sources given.
pub open spec fn suggestion_matches(s: LibrarySuggestion, c: CandidateRow, sources: Seq<SuggestionSourceRecord>) -> bool {
    &&& s.anilist_id == c.target_anilist_id as u32
    &&& s.title == c.title
    &&& s.cover_url == c.cover_url
    &&& s.synopsis == c.synopsis
    &&& s.media_format == c.media_format
    &&& s.publishing_status == c.publishing_status
    &&& s.tags == c.tags
    &&& s.community_rating == c.community_rating
    &&& s.popularity == c.popularity
    &&& s.favourites == c.favourites
    &&& s.total_occurrences == c.total_occurrences
    &&& s.recommendation_occurrences == c.recommendation_occurrences
    &&& s.relation_occurrences == c.relation_occurrences
    &&& s.weighted_score_micros == c.weighted_score_micros
    &&& s.refreshed_at == c.refreshed_at
    &&& s.sources@ == sources
}

/// The sources the `k`-th shown candidate gets: those of its series, unless
/// an earlier shown candidate of the same series took them.
pub open spec fn sources_given(shown_rows: Seq<CandidateRow>, rows: Seq<SourceRow>, k: int) -> Seq<SuggestionSourceRecord> {
    if exists|j: int| 0 <= j < k && #[trigger] shown_rows[j].target_anilist_id == shown_rows[k].target_anilist_id {
        Seq::empty()
    } else {
        records_for(rows, shown_rows[k].target_anilist_id)
    }
}

/// The records of the sources of `target`, in row order.
fn collect_records(rows: &Vec<SourceRow>, target: i64) -> (r: Vec<SuggestionSourceRecord>)
    requires
        sources_readable(rows@),
    ensures
        r@ == records_for(rows@, target),
{
    let mut r: Vec<SuggestionSourceRecord> = Vec::new();
    let mut i: usize = 0;
    while i < rows.len()
        invariant
            i <= rows.len(),
            sources_readable(rows@),
            r@ == records_for(rows@.take(i as int), target),
        decreases rows.len() - i,
    {
        proof {
            assert(rows@.take(i + 1).drop_last() =~= rows@.take(i as int));
            assert(record_of(rows@[i as int]) is Some);
        }
        let row = &rows[i];
        if row.target_anilist_id == target {
            let id = parse_uuid(row.source_manga_id.as_str()).unwrap();
            let kind = if str_eq(row.source_kind.as_str(), "Recommendation") {
                SuggestionSourceKind::Recommendation
            } else {
                SuggestionSourceKind::Relation
            };
            let rec = SuggestionSourceRecord {
                source_manga_id: id,
                source_title: row.source_title.clone(),
                source_kind: kind,
                relation_type: parse_relation_kind(clone_opt(&row.relation_type)),
                context: clone_opt(&row.context),
                rating: row.rating,
            };
            r.push(rec);
        }
        i += 1;
    }
    proof {
        assert(rows@.take(rows.len() as int) =~= rows@);
    }
    r
}

/// Whether some value of `v` is `x`.
fn has_i64(v: &Vec<i64>, x: i64) -> (r: bool)
    ensures
        r == v@.contains(x),
{
    let mut i: usize = 0;
    while i < v.len()
        invariant
            i <= v.len(),
            forall|j: int| 0 <= j < i ==> v@[j] != x,
        decreases v.len() - i,
    {
        if v[i] == x {
            return true;
        }
        i += 1;
    }
    false
}

/// A library's suggestions: the candidates whose series is not in the
/// library (`existing` holds the library's AniList ids), in the stored
/// order, each with its sources; refreshed at the latest refresh among all
/// candidates. `None` when a source's series id does not read as a UUID.
pub fn get_for_library(
    library_id: u128,
    candidates: Vec<CandidateRow>,
    sources: &Vec<SourceRow>,
    existing: &Vec<i64>,
) -> (r: Option<LibrarySuggestionList>)
    ensures
        !sources_readable(sources@) ==> r is None,
        sources_readable(sources@) ==> (r matches Some(list) && ({
            let shown_rows = candidates@.filter(shown(existing@));
            &&& list.library_id == library_id
            &&& list.refreshed_at == latest_refresh(candidates@)
            &&& list.suggestions.len() == shown_rows.len()
            &&& forall|k: int| 0 <= k < shown_rows.len() ==> suggestion_matches(
                #[trigger] list.suggestions[k],
                shown_rows[k],
                sources_given(shown_rows, sources@, k),
            )
        })),
{
    let mut i: usize = 0;
    while i < sources.len()
        invariant
            i <= sources.len(),
            forall|j: int| 0 <= j < i ==> #[trigger] record_of(sources@[j]) is Some,
        decreases sources.len() - i,
    {
        if parse_uuid(sources[i].source_manga_id.as_str()).is_none() {
            proof {
                assert(record_of(sources@[i as int]) is None);
                assert(!sources_readable(sources@));
            }
            return None;
        }
        i += 1;
    }
    let ghost all = candidates@;
    let ghost pred = shown(existing@);
    let mut refreshed_at: Option<i64> = None;
    let mut taken: Vec<i64> = Vec::new();
    let mut suggestions: Vec<LibrarySuggestion> = Vec::new();
    let mut rest = candidates;
    let mut j: usize = 0;
    assert(all.len() == rest.len());
    while rest.len() > 0
        invariant
            sources_readable(sources@),
            pred == shown(existing@),
            j <= all.len() <= usize::MAX,
            rest@ == all.skip(j as int),
            refreshed_at == latest_refresh(all.take(j as int)),
            suggestions.len() == all.take(j as int).filter(pred).len(),
            taken@ == all.take(j as int).filter(pred).map_values(|c: CandidateRow| c.target_anilist_id),
            forall|k: int| 0 <= k < suggestions.len() ==> suggestion_matches(
                #[trigger] suggestions[k],
                all.take(j as int).filter(pred)[k],
                sources_given(all.take(j as int).filter(pred), sources@, k),
            ),
        decreases rest.len(),
    {
        let c = rest.remove(0);
        let ghost prev = all.take(j as int).filter(pred);
        proof {
            assert(c == all[j as int]);
            assert(rest@ =~= all.skip(j + 1));
            assert(all.take(j + 1) =~= all.take(j as int).push(c));
            assert(all.take(j + 1).drop_last() =~= all.take(j as int));
            all.take(j as int).lemma_filter_push(c, pred);
        }
        refreshed_at = match refreshed_at {
            Some(t) => if t >= c.refreshed_at {
                Some(t)
            } else {
                Some(c.refreshed_at)
            },
            None => Some(c.refreshed_at),
        };
        if !has_i64(existing, c.target_anilist_id) {
            let already = has_i64(&taken, c.target_anilist_id);
            let recs = if already {
                Vec::new()
            } else {
                collect_records(sources, c.target_anilist_id)
            };
            let ghost next = prev.push(c);
            proof {
                assert(pred(c));
                let k = prev.len() as int;
                assert(next[k] == c);
                assert forall|x: int| 0 <= x < k implies next[x] == prev[x] by {}
                if already {
                    let x = choose|x: int| 0 <= x < taken@.len() && taken@[x] == c.target_anilist_id;
                    assert(prev[x].target_anilist_id == c.target_anilist_id);
                    assert(next[x].target_anilist_id == next[k].target_anilist_id);
                    assert(recs@ == sources_given(next, sources@, k));
                } else {
                    assert forall|x: int| 0 <= x < k implies #[trigger] next[x].target_anilist_id != next[k].target_anilist_id by {
                        assert(taken@[x] == prev[x].target_anilist_id);
                    }
                    assert(recs@ == sources_given(next, sources@, k));
                }
                assert forall|x: int| 0 <= x < k implies sources_given(next, sources@, x) == sources_given(prev, sources@, x) by {
                    if exists|y: int| 0 <= y < x && #[trigger] prev[y].target_anilist_id == prev[x].target_anilist_id {
                        let y = choose|y: int| 0 <= y < x && #[trigger] prev[y].target_anilist_id == prev[x].target_anilist_id;
                        assert(next[y].target_anilist_id == next[x].target_anilist_id);
                    }
                    if exists|y: int| 0 <= y < x && #[trigger] next[y].target_anilist_id == next[x].target_anilist_id {
                        let y = choose|y: int| 0 <= y < x && #[trigger] next[y].target_anilist_id == next[x].target_anilist_id;
                        assert(prev[y].target_anilist_id == prev[x].target_anilist_id);
                    }
                }
            }
            let s = LibrarySuggestion {
                anilist_id: c.target_anilist_id as u32,
                title: c.title,
                cover_url: c.cover_url,
                synopsis: c.synopsis,
                media_format: c.media_format,
                publishing_status: c.publishing_status,
                tags: c.tags,
                community_rating: c.community_rating,
                popularity: c.popularity,
                favourites: c.favourites,
                total_occurrences: c.total_occurrences,
                recommendation_occurrences: c.recommendation_occurrences,
                relation_occurrences: c.relation_occurrences,
                weighted_score_micros: c.weighted_score_micros,
                refreshed_at: c.refreshed_at,
                sources: recs,
            };
            let ghost before = suggestions@;
            let ghost tbefore = taken@;
            suggestions.push(s);
            taken.push(c.target_anilist_id);
            proof {
                assert(taken@ =~= next.map_values(|c: CandidateRow| c.target_anilist_id)) by {
                    assert(tbefore == prev.map_values(|c: CandidateRow| c.target_anilist_id));
                }
                assert forall|k: int| 0 <= k < suggestions.len() implies suggestion_matches(
                    #[trigger] suggestions[k],
                    next[k],
                    sources_given(next, sources@, k),
                ) by {
                    if k < before.len() {
                        assert(suggestions[k] == before[k]);
                    }
                }
            }
        } else {
            proof {
                assert(!pred(c));
            }
        }
        j += 1;
    }
    proof {
        assert(all.take(j as int) =~= all);
    }
    Some(LibrarySuggestionList { library_id, refreshed_at, suggestions })
}

} // verus!
