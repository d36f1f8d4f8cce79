//! Suggestions for a library: the recommendations and relations that AniList
//! gives for the library's series, gathered per suggested series, scored,
//! completed with cached or fetched details, and ranked.
//!
//! Scores are kept in millionths, so that the weights (1 per recommendation
//! plus its rating in thousandths, 1.35 and 0.15 per relation, the community
//! rating in thousandths, the popularity in millionths) are exact.

use vstd::prelude::*;
use crate::suggestions::{relation_label, relation_label_spec, SuggestionRelationKind, SuggestionSourceKind};
use crate::text::{
    chars_of, clone_opt, lemma_seq_lt_transitive, lemma_seq_lt_trichotomy, opt_view, push_str, seq_lt, str_lt,
};
use crate::webhook::clone_strings;

verus! {

/// A series that AniList suggests.
#[derive(Debug)]
pub struct SuggestionMedia {
    pub anilist_id: u32,
    pub title: String,
    pub cover_url: Option<String>,
    pub synopsis: Option<String>,
    pub media_format: Option<String>,
    pub publishing_status: Option<String>,
    pub tags: Vec<String>,
    pub community_rating: Option<i32>,
    pub popularity: Option<i32>,
    pub favourites: Option<i32>,
}

impl SuggestionMedia {
    pub fn copy(&self) -> (r: Self)
        ensures
            r.anilist_id == self.anilist_id,
            r.title == self.title,
            r.cover_url == self.cover_url,
            r.synopsis == self.synopsis,
            r.media_format == self.media_format,
            r.publishing_status == self.publishing_status,
            r.tags@ == self.tags@,
            r.community_rating == self.community_rating,
            r.popularity == self.popularity,
            r.favourites == self.favourites,
    {
        SuggestionMedia {
            anilist_id: self.anilist_id,
            title: self.title.clone(),
            cover_url: clone_opt(&self.cover_url),
            synopsis: clone_opt(&self.synopsis),
            media_format: clone_opt(&self.media_format),
            publishing_status: clone_opt(&self.publishing_status),
            tags: clone_strings(&self.tags),
            community_rating: self.community_rating,
            popularity: self.popularity,
            favourites: self.favourites,
        }
    }
}

/// A recommendation of a series, with the community's rating of it.
#[derive(Debug)]
pub struct RecommendationSuggestion {
    pub target: SuggestionMedia,
    pub rating: Option<i32>,
}

/// A work related to a series.
#[derive(Debug)]
pub struct RelationSuggestion {
    pub target: SuggestionMedia,
    pub relation_type: SuggestionRelationKind,
}

/// Details that complete a suggestion where AniList's suggestion lacked them.
#[derive(Debug)]
pub struct SuggestionMediaDetails {
    pub synopsis: Option<String>,
    pub community_rating: Option<i32>,
    pub popularity: Option<i32>,
    pub favourites: Option<i32>,
}

/// A series of the library, with what AniList suggests from it.
#[derive(Debug)]
pub struct SuggestionSource {
    pub source_manga_id: u128,
    pub source_title: String,
    pub source_anilist_id: u32,
    pub recommendations: Vec<RecommendationSuggestion>,
    pub relations: Vec<RelationSuggestion>,
}

/// A suggested series as stored, with its counts and score.
#[derive(Debug)]
pub struct UpsertSuggestionCandidate {
    pub anilist_id: u32,
    pub title: String,
    pub cover_url: Option<String>,
    pub synopsis: Option<String>,
    pub media_format: Option<String>,
    pub publishing_status: Option<String>,
    pub tags: Vec<String>,
    pub community_rating: Option<i32>,
    pub popularity: Option<i32>,
    pub favourites: Option<i32>,
    pub total_occurrences: i32,
    pub recommendation_occurrences: i32,
    pub relation_occurrences: i32,
    /// The score, in millionths.
    pub weighted_score_micros: i64,
}

/// Why a series was suggested, as stored.
#[derive(Debug)]
pub struct UpsertSuggestionSource {
    pub source_manga_id: u128,
    pub target_anilist_id: u32,
    pub source_kind: SuggestionSourceKind,
    pub relation_type: Option<SuggestionRelationKind>,
    pub context: Option<String>,
    pub rating: Option<i32>,
}

// ---------------------------------------------------------------------------
// The sequence of suggestions
// ---------------------------------------------------------------------------

/// A suggested series as specifications see it.
pub struct MediaView {
    pub anilist_id: u32,
    pub title: Seq<char>,
    pub cover_url: Option<Seq<char>>,
    pub synopsis: Option<Seq<char>>,
    pub media_format: Option<Seq<char>>,
    pub publishing_status: Option<Seq<char>>,
    pub tags: Seq<String>,
    pub community_rating: Option<i32>,
    pub popularity: Option<i32>,
    pub favourites: Option<i32>,
}

pub open spec fn media_view(m: SuggestionMedia) -> MediaView {
    MediaView {
        anilist_id: m.anilist_id,
        title: m.title@,
        cover_url: opt_view(m.cover_url),
        synopsis: opt_view(m.synopsis),
        media_format: opt_view(m.media_format),
        publishing_status: opt_view(m.publishing_status),
        tags: m.tags@,
        community_rating: m.community_rating,
        popularity: m.popularity,
        favourites: m.favourites,
    }
}

/// How a suggestion links a library series to the suggested one.
pub enum SuggestionLink {
    Recommendation(Option<i32>),
    Relation(SuggestionRelationKind),
}

/// One suggestion, with the library series it came from.
pub struct SuggestionEvent {
    pub source_manga_id: u128,
    pub source_title: Seq<char>,
    pub source_anilist_id: u32,
    pub target: MediaView,
    pub link: SuggestionLink,
}

pub open spec fn rec_event(s: SuggestionSource, r: RecommendationSuggestion) -> SuggestionEvent {
    SuggestionEvent {
        source_manga_id: s.source_manga_id,
        source_title: s.source_title@,
        source_anilist_id: s.source_anilist_id,
        target: media_view(r.target),
        link: SuggestionLink::Recommendation(r.rating),
    }
}

pub open spec fn rel_event(s: SuggestionSource, r: RelationSuggestion) -> SuggestionEvent {
    SuggestionEvent {
        source_manga_id: s.source_manga_id,
        source_title: s.source_title@,
        source_anilist_id: s.source_anilist_id,
        target: media_view(r.target),
        link: SuggestionLink::Relation(r.relation_type),
    }
}

pub open spec fn rec_events(s: SuggestionSource) -> Seq<SuggestionEvent> {
    s.recommendations@.map_values(|r: RecommendationSuggestion| rec_event(s, r))
}

pub open spec fn rel_events(s: SuggestionSource) -> Seq<SuggestionEvent> {
    s.relations@.map_values(|r: RelationSuggestion| rel_event(s, r))
}

/// All suggestions in order: series by series, recommendations before relations.
pub open spec fn events_of(sources: Seq<SuggestionSource>) -> Seq<SuggestionEvent>
    decreases sources.len(),
{
    if sources.len() == 0 {
        Seq::empty()
    } else {
        events_of(sources.drop_last()) + rec_events(sources.last()) + rel_events(sources.last())
    }
}

/// Suggestions that count: not of the series itself, nor of a series the
/// library already has.
pub open spec fn counts(existing: Seq<u32>, e: SuggestionEvent) -> bool {
    e.target.anilist_id != e.source_anilist_id && !existing.contains(e.target.anilist_id)
}

// ---------------------------------------------------------------------------
// Gathering per suggested series
// ---------------------------------------------------------------------------

/// A suggested series with its counts and score so far.
pub struct AggView {
    pub meta: MediaView,
    pub total: int,
    pub recommendations: int,
    pub relations: int,
    /// In millionths.
    pub weight: int,
}

/// What one suggestion adds to the score: 1 and its rating in thousandths for
/// a recommendation, 1.35 for a relation.
pub open spec fn link_weight(l: SuggestionLink) -> int {
    match l {
        SuggestionLink::Recommendation(r) => 1_000_000 + 1000 * match r { Some(v) => v as int, None => 0 },
        SuggestionLink::Relation(_) => 1_350_000,
    }
}

pub open spec fn bump(a: AggView, e: SuggestionEvent) -> AggView {
    AggView {
        meta: a.meta,
        total: a.total + 1,
        recommendations: a.recommendations + if e.link is Recommendation { 1int } else { 0 },
        relations: a.relations + if e.link is Relation { 1int } else { 0 },
        weight: a.weight + link_weight(e.link),
    }
}

/// The first suggestion of a series opens its entry with the series' data.
pub open spec fn fresh(e: SuggestionEvent) -> AggView {
    AggView { meta: e.target, total: 0, recommendations: 0, relations: 0, weight: 0 }
}

/// Where the entry of a series is, or -1.
pub open spec fn agg_index(s: Seq<AggView>, id: u32) -> int
    decreases s.len(),
{
    if s.len() == 0 {
        -1
    } else if agg_index(s.drop_last(), id) >= 0 {
        agg_index(s.drop_last(), id)
    } else if s.last().meta.anilist_id == id {
        s.len() - 1
    } else {
        -1
    }
}

/// The entries after a sequence of suggestions, in the order in which the
/// series were first suggested.
pub open spec fn aggregate_spec(existing: Seq<u32>, evs: Seq<SuggestionEvent>) -> Seq<AggView>
    decreases evs.len(),
{
    if evs.len() == 0 {
        Seq::empty()
    } else {
        let prev = aggregate_spec(existing, evs.drop_last());
        let e = evs.last();
        if !counts(existing, e) {
            prev
        } else {
            let k = agg_index(prev, e.target.anilist_id);
            if k >= 0 {
                prev.update(k, bump(prev[k], e))
            } else {
                prev.push(bump(fresh(e), e))
            }
        }
    }
}

/// A stored reason as specifications see it.
pub struct SourceRowView {
    pub source_manga_id: u128,
    pub target_anilist_id: u32,
    pub source_kind: SuggestionSourceKind,
    pub relation_type: Option<SuggestionRelationKind>,
    pub context: Seq<char>,
    pub rating: Option<i32>,
}

/// The reason stored for a suggestion: "Recommended from {series}", or
/// "{relation label} to {series}".
pub open spec fn source_row(e: SuggestionEvent) -> SourceRowView {
    match e.link {
        SuggestionLink::Recommendation(r) => SourceRowView {
            source_manga_id: e.source_manga_id,
            target_anilist_id: e.target.anilist_id,
            source_kind: SuggestionSourceKind::Recommendation,
            relation_type: None,
            context: "Recommended from "@ + e.source_title,
            rating: r,
        },
        SuggestionLink::Relation(k) => SourceRowView {
            source_manga_id: e.source_manga_id,
            target_anilist_id: e.target.anilist_id,
            source_kind: SuggestionSourceKind::Relation,
            relation_type: Some(k),
            context: relation_label_spec(k) + " to "@ + e.source_title,
            rating: None,
        },
    }
}

/// The reasons of the suggestions that count, in order.
pub open spec fn rows_spec(existing: Seq<u32>, evs: Seq<SuggestionEvent>) -> Seq<SourceRowView>
    decreases evs.len(),
{
    if evs.len() == 0 {
        Seq::empty()
    } else {
        let prev = rows_spec(existing, evs.drop_last());
        if counts(existing, evs.last()) { prev.push(source_row(evs.last())) } else { prev }
    }
}

/// A gathered suggested series.
#[derive(Debug)]
pub struct AggregatedCandidate {
    pub meta: SuggestionMedia,
    pub total_occurrences: i32,
    pub recommendation_occurrences: i32,
    pub relation_occurrences: i32,
    /// In millionths.
    pub weight: i64,
}

pub open spec fn agg_view(a: AggregatedCandidate) -> AggView {
    AggView {
        meta: media_view(a.meta),
        total: a.total_occurrences as int,
        recommendations: a.recommendation_occurrences as int,
        relations: a.relation_occurrences as int,
        weight: a.weight as int,
    }
}

pub open spec fn agg_views(s: Seq<AggregatedCandidate>) -> Seq<AggView> {
    s.map_values(|a: AggregatedCandidate| agg_view(a))
}

pub open spec fn row_view(r: UpsertSuggestionSource) -> SourceRowView {
    SourceRowView {
        source_manga_id: r.source_manga_id,
        target_anilist_id: r.target_anilist_id,
        source_kind: r.source_kind,
        relation_type: r.relation_type,
        context: match r.context { Some(c) => c@, None => Seq::empty() },
        rating: r.rating,
    }
}

pub open spec fn row_views(s: Seq<UpsertSuggestionSource>) -> Seq<SourceRowView> {
    s.map_values(|r: UpsertSuggestionSource| row_view(r))
}

/// Every entry's counts are within what `n` suggestions give.
pub open spec fn bounded(s: Seq<AggView>, n: int) -> bool {
    forall|k: int| 0 <= k < s.len() ==> {
        &&& 0 <= #[trigger] s[k].total <= n
        &&& s[k].total == s[k].recommendations + s[k].relations
        &&& 0 <= s[k].recommendations && 0 <= s[k].relations
        &&& -3_000_000_000_000 * s[k].total <= s[k].weight <= 3_000_000_000_000 * s[k].total
    }
}

proof fn lemma_aggregate_bounded(existing: Seq<u32>, evs: Seq<SuggestionEvent>)
    ensures
        bounded(aggregate_spec(existing, evs), evs.len() as int),
        forall|k: int| 0 <= k < aggregate_spec(existing, evs).len() ==>
            agg_index(aggregate_spec(existing, evs), #[trigger] aggregate_spec(existing, evs)[k].meta.anilist_id) == k,
    decreases evs.len(),
{
    if evs.len() > 0 {
        let prev = aggregate_spec(existing, evs.drop_last());
        lemma_aggregate_bounded(existing, evs.drop_last());
        let e = evs.last();
        if counts(existing, e) {
            let k = agg_index(prev, e.target.anilist_id);
            lemma_agg_index(prev, e.target.anilist_id);
            let next = aggregate_spec(existing, evs);
            if k >= 0 {
                lemma_agg_index_update(prev, k, bump(prev[k], e));
            } else {
                lemma_agg_index_push(prev, bump(fresh(e), e));
            }
            let n = evs.len() as int;
            assert(-2_148_000_000_000 <= link_weight(e.link) <= 2_148_000_000_000);
            assert forall|j: int| 0 <= j < next.len() implies {
                &&& 0 <= #[trigger] next[j].total <= n
                &&& next[j].total == next[j].recommendations + next[j].relations
                &&& 0 <= next[j].recommendations && 0 <= next[j].relations
                &&& -3_000_000_000_000 * next[j].total <= next[j].weight <= 3_000_000_000_000 * next[j].total
            } by {
                if k >= 0 && j == k {
                    assert(next[j] == bump(prev[k], e));
                } else if k < 0 && j == prev.len() {
                    assert(next[j] == bump(fresh(e), e));
                } else {
                    assert(next[j] == prev[j]);
                }
            }
            assert forall|j: int| 0 <= j < next.len() implies agg_index(next, #[trigger] next[j].meta.anilist_id) == j by {
                if k >= 0 {
                    assert(next[j].meta == prev[j].meta);
                } else if j < prev.len() {
                    assert(next[j] == prev[j]);
                }
            }
        }
    }
}

proof fn lemma_agg_index(s: Seq<AggView>, id: u32)
    ensures
        -1 <= agg_index(s, id) < s.len(),
        agg_index(s, id) >= 0 ==> s[agg_index(s, id)].meta.anilist_id == id,
        agg_index(s, id) < 0 ==> forall|j: int| 0 <= j < s.len() ==> s[j].meta.anilist_id != id,
    decreases s.len(),
{
    if s.len() > 0 {
        lemma_agg_index(s.drop_last(), id);
        assert forall|j: int| 0 <= j < s.len() - 1 implies s.drop_last()[j] == s[j] by {}
    }
}

proof fn lemma_agg_index_update(s: Seq<AggView>, k: int, a: AggView)
    requires
        0 <= k < s.len(),
        a.meta.anilist_id == s[k].meta.anilist_id,
    ensures
        forall|id: u32| #[trigger] agg_index(s.update(k, a), id) == agg_index(s, id),
    decreases s.len(),
{
    assert forall|id: u32| #[trigger] agg_index(s.update(k, a), id) == agg_index(s, id) by {
        lemma_agg_index_update_one(s, k, a, id);
    }
}

proof fn lemma_agg_index_update_one(s: Seq<AggView>, k: int, a: AggView, id: u32)
    requires
        0 <= k < s.len(),
        a.meta.anilist_id == s[k].meta.anilist_id,
    ensures
        agg_index(s.update(k, a), id) == agg_index(s, id),
    decreases s.len(),
{
    let t = s.update(k, a);
    if k < s.len() - 1 {
        assert(t.drop_last() =~= s.drop_last().update(k, a));
        lemma_agg_index_update_one(s.drop_last(), k, a, id);
    } else {
        assert(t.drop_last() =~= s.drop_last());
    }
}

proof fn lemma_agg_index_push(s: Seq<AggView>, a: AggView)
    requires
        agg_index(s, a.meta.anilist_id) < 0,
    ensures
        forall|id: u32| #[trigger] agg_index(s.push(a), id) == if id == a.meta.anilist_id { s.len() as int } else { agg_index(s, id) },
{
    assert forall|id: u32| #[trigger] agg_index(s.push(a), id) == if id == a.meta.anilist_id { s.len() as int } else { agg_index(s, id) } by {
        assert(s.push(a).drop_last() =~= s);
    }
}

/// One step of gathering: the entries after one more suggestion.
pub open spec fn step(existing: Seq<u32>, prev: Seq<AggView>, e: SuggestionEvent) -> Seq<AggView> {
    if !counts(existing, e) {
        prev
    } else {
        let k = agg_index(prev, e.target.anilist_id);
        if k >= 0 {
            prev.update(k, bump(prev[k], e))
        } else {
            prev.push(bump(fresh(e), e))
        }
    }
}

proof fn lemma_agg_index_first(s: Seq<AggView>, id: u32, k: int)
    requires
        0 <= k < s.len(),
        s[k].meta.anilist_id == id,
        forall|j: int| 0 <= j < k ==> s[j].meta.anilist_id != id,
    ensures
        agg_index(s, id) == k,
    decreases s.len(),
{
    if k < s.len() - 1 {
        assert forall|j: int| 0 <= j < s.len() - 1 implies s.drop_last()[j] == s[j] by {}
        lemma_agg_index_first(s.drop_last(), id, k);
    } else {
        lemma_agg_index(s.drop_last(), id);
        assert forall|j: int| 0 <= j < s.len() - 1 implies s.drop_last()[j] == s[j] by {}
        if agg_index(s.drop_last(), id) >= 0 {
            let m = agg_index(s.drop_last(), id);
            assert(s[m].meta.anilist_id == id);
        }
    }
}

fn find_agg(aggs: &Vec<AggregatedCandidate>, id: u32) -> (r: Option<usize>)
    ensures
        match r {
            Some(k) => k < aggs@.len() && k as int == agg_index(agg_views(aggs@), id),
            None => agg_index(agg_views(aggs@), id) < 0,
        },
{
    let ghost v = agg_views(aggs@);
    let mut k: usize = 0;
    while k < aggs.len()
        invariant
            k <= aggs@.len(),
            v == agg_views(aggs@),
            forall|j: int| 0 <= j < k ==> v[j].meta.anilist_id != id,
        decreases aggs.len() - k,
    {
        if aggs[k].meta.anilist_id == id {
            proof {
                lemma_agg_index_first(v, id, k as int);
            }
            return Some(k);
        }
        k = k + 1;
    }
    proof {
        lemma_agg_index(v, id);
        if agg_index(v, id) >= 0 {
            let m = agg_index(v, id);
            assert(v[m].meta.anilist_id == id);
        }
    }
    None
}

fn contains_u32(v: &Vec<u32>, x: u32) -> (r: bool)
    ensures
        r == v@.contains(x),
{
    let mut i: usize = 0;
    while i < v.len()
        invariant
            i <= v@.len(),
            forall|j: int| 0 <= j < i ==> v@[j] != x,
        decreases v.len() - i,
    {
        if v[i] == x {
            assert(v@[i as int] == x);
            return true;
        }
        i = i + 1;
    }
    false
}

fn link_weight_exec(l: &SuggestionLink) -> (w: i64)
    ensures
        w == link_weight(*l),
{
    match l {
        SuggestionLink::Recommendation(r) => 1_000_000 + 1000 * match r {
            Some(v) => *v as i64,
            None => 0,
        },
        SuggestionLink::Relation(_) => 1_350_000,
    }
}

pub open spec fn event_of(s: SuggestionSource, target: SuggestionMedia, link: SuggestionLink) -> SuggestionEvent {
    SuggestionEvent {
        source_manga_id: s.source_manga_id,
        source_title: s.source_title@,
        source_anilist_id: s.source_anilist_id,
        target: media_view(target),
        link,
    }
}

fn context_text(source_title: &String, link: &SuggestionLink) -> (r: String)
    ensures
        r@ == source_row(SuggestionEvent {
            source_manga_id: 0,
            source_title: source_title@,
            source_anilist_id: 0,
            target: arbitrary_media(),
            link: *link,
        }).context,
{
    let mut c = String::new();
    match link {
        SuggestionLink::Recommendation(_) => {
            push_str(&mut c, "Recommended from ");
        },
        SuggestionLink::Relation(k) => {
            push_str(&mut c, relation_label(*k));
            push_str(&mut c, " to ");
        },
    }
    push_str(&mut c, source_title.as_str());
    c
}

/// Any media; the reason's text does not depend on it.
pub closed spec fn arbitrary_media() -> MediaView {
    MediaView {
        anilist_id: 0,
        title: Seq::empty(),
        cover_url: None,
        synopsis: None,
        media_format: None,
        publishing_status: None,
        tags: Seq::empty(),
        community_rating: None,
        popularity: None,
        favourites: None,
    }
}

fn record_event(
    aggs: &mut Vec<AggregatedCandidate>,
    rows: &mut Vec<UpsertSuggestionSource>,
    existing: &Vec<u32>,
    source: &SuggestionSource,
    target: &SuggestionMedia,
    link: SuggestionLink,
)
    requires
        bounded(agg_views(old(aggs)@), 999_999),
        forall|k: int| 0 <= k < old(aggs)@.len() ==>
            agg_index(agg_views(old(aggs)@), #[trigger] agg_views(old(aggs)@)[k].meta.anilist_id) == k,
    ensures
        agg_views(final(aggs)@) == step(existing@, agg_views(old(aggs)@), event_of(*source, *target, link)),
        row_views(final(rows)@) == if counts(existing@, event_of(*source, *target, link)) {
            row_views(old(rows)@).push(source_row(event_of(*source, *target, link)))
        } else {
            row_views(old(rows)@)
        },
{
    let ghost e = event_of(*source, *target, link);
    let ghost prev = agg_views(aggs@);
    let id = target.anilist_id;
    if id == source.source_anilist_id || contains_u32(existing, id) {
        return;
    }
    let w = link_weight_exec(&link);
    let is_rec: i32 = match link {
        SuggestionLink::Recommendation(_) => 1,
        SuggestionLink::Relation(_) => 0,
    };
    match find_agg(aggs, id) {
        Some(k) => {
            proof {
                assert(prev[k as int] == agg_view(aggs@[k as int]));
            }
            let a = &aggs[k];
            let updated = AggregatedCandidate {
                meta: a.meta.copy(),
                total_occurrences: a.total_occurrences + 1,
                recommendation_occurrences: a.recommendation_occurrences + is_rec,
                relation_occurrences: a.relation_occurrences + (1 - is_rec),
                weight: a.weight + w,
            };
            aggs.set(k, updated);
            proof {
                assert(agg_views(aggs@) =~= prev.update(k as int, bump(prev[k as int], e)));
            }
        },
        None => {
            let fresh_entry = AggregatedCandidate {
                meta: target.copy(),
                total_occurrences: 1,
                recommendation_occurrences: is_rec,
                relation_occurrences: 1 - is_rec,
                weight: w,
            };
            aggs.push(fresh_entry);
            proof {
                assert(agg_views(aggs@) =~= prev.push(bump(fresh(e), e)));
            }
        },
    }
    let context = context_text(&source.source_title, &link);
    let row = match link {
        SuggestionLink::Recommendation(r) => UpsertSuggestionSource {
            source_manga_id: source.source_manga_id,
            target_anilist_id: id,
            source_kind: SuggestionSourceKind::Recommendation,
            relation_type: None,
            context: Some(context),
            rating: r,
        },
        SuggestionLink::Relation(kind) => UpsertSuggestionSource {
            source_manga_id: source.source_manga_id,
            target_anilist_id: id,
            source_kind: SuggestionSourceKind::Relation,
            relation_type: Some(kind),
            context: Some(context),
            rating: None,
        },
    };
    let ghost rows0 = row_views(rows@);
    rows.push(row);
    proof {
        assert(row_views(rows@) =~= rows0.push(source_row(e)));
    }
}

proof fn lemma_aggregate_push(existing: Seq<u32>, evs: Seq<SuggestionEvent>, e: SuggestionEvent)
    ensures
        aggregate_spec(existing, evs.push(e)) == step(existing, aggregate_spec(existing, evs), e),
        rows_spec(existing, evs.push(e)) == if counts(existing, e) {
            rows_spec(existing, evs).push(source_row(e))
        } else {
            rows_spec(existing, evs)
        },
{
    assert(evs.push(e).drop_last() =~= evs);
}

proof fn lemma_events_prefix_len(sources: Seq<SuggestionSource>, i: int)
    requires
        0 <= i <= sources.len(),
    ensures
        events_of(sources.take(i)).len() <= events_of(sources).len(),
    decreases sources.len() - i,
{
    if i < sources.len() {
        lemma_events_prefix_len(sources, i + 1);
        assert(sources.take(i + 1).drop_last() =~= sources.take(i));
    } else {
        assert(sources.take(i) =~= sources);
    }
}

/// Gathers the suggestions of the library's series: one entry per suggested
/// series that the library lacks, in the order of first suggestion, with its
/// counts and score, and the reason of every suggestion that counts.
pub fn aggregate_suggestions(existing: &Vec<u32>, sources: &Vec<SuggestionSource>)
    -> (r: (Vec<AggregatedCandidate>, Vec<UpsertSuggestionSource>))
    requires
        events_of(sources@).len() < 1_000_000,
    ensures
        agg_views(r.0@) == aggregate_spec(existing@, events_of(sources@)),
        row_views(r.1@) == rows_spec(existing@, events_of(sources@)),
        bounded(agg_views(r.0@), 999_999),
{
    let mut aggs: Vec<AggregatedCandidate> = Vec::new();
    let mut rows: Vec<UpsertSuggestionSource> = Vec::new();
    let ghost total = events_of(sources@).len();
    assert(agg_views(aggs@) =~= Seq::<AggView>::empty());
    assert(row_views(rows@) =~= Seq::<SourceRowView>::empty());
    assert(sources@.take(0) =~= Seq::<SuggestionSource>::empty());
    let mut i: usize = 0;
    while i < sources.len()
        invariant
            i <= sources@.len(),
            total == events_of(sources@).len(),
            total < 1_000_000,
            agg_views(aggs@) == aggregate_spec(existing@, events_of(sources@.take(i as int))),
            row_views(rows@) == rows_spec(existing@, events_of(sources@.take(i as int))),
        decreases sources.len() - i,
    {
        let s = &sources[i];
        proof {
            lemma_events_prefix_len(sources@, i + 1);
            assert(sources@.take(i + 1).drop_last() =~= sources@.take(i as int));
            assert(sources@.take(i + 1).last() == *s);
        }
        let ghost base = events_of(sources@.take(i as int));
        let mut j: usize = 0;
        while j < s.recommendations.len()
            invariant
                j <= s.recommendations@.len(),
                (base + rec_events(*s) + rel_events(*s)).len() < 1_000_000,
                agg_views(aggs@) == aggregate_spec(existing@, base + rec_events(*s).take(j as int)),
                row_views(rows@) == rows_spec(existing@, base + rec_events(*s).take(j as int)),
            decreases s.recommendations.len() - j,
        {
            let rec = &s.recommendations[j];
            let ghost evs = base + rec_events(*s).take(j as int);
            proof {
                lemma_aggregate_bounded(existing@, evs);
                assert(evs.len() <= 999_999);
            }
            record_event(&mut aggs, &mut rows, existing, s, &rec.target, SuggestionLink::Recommendation(rec.rating));
            proof {
                assert(base + rec_events(*s).take(j + 1) =~= evs.push(rec_event(*s, *rec)));
                lemma_aggregate_push(existing@, evs, rec_event(*s, *rec));
            }
            j = j + 1;
        }
        assert(rec_events(*s).take(rec_events(*s).len() as int) =~= rec_events(*s));
        let ghost base2 = base + rec_events(*s);
        let mut j: usize = 0;
        while j < s.relations.len()
            invariant
                j <= s.relations@.len(),
                (base2 + rel_events(*s)).len() < 1_000_000,
                agg_views(aggs@) == aggregate_spec(existing@, base2 + rel_events(*s).take(j as int)),
                row_views(rows@) == rows_spec(existing@, base2 + rel_events(*s).take(j as int)),
            decreases s.relations.len() - j,
        {
            let rel = &s.relations[j];
            let ghost evs = base2 + rel_events(*s).take(j as int);
            proof {
                lemma_aggregate_bounded(existing@, evs);
                assert(evs.len() <= 999_999);
            }
            record_event(&mut aggs, &mut rows, existing, s, &rel.target, SuggestionLink::Relation(rel.relation_type));
            proof {
                assert(base2 + rel_events(*s).take(j + 1) =~= evs.push(rel_event(*s, *rel)));
                lemma_aggregate_push(existing@, evs, rel_event(*s, *rel));
            }
            j = j + 1;
        }
        assert(rel_events(*s).take(rel_events(*s).len() as int) =~= rel_events(*s));
        i = i + 1;
    }
    assert(sources@.take(sources@.len() as int) =~= sources@);
    proof {
        lemma_aggregate_bounded(existing@, events_of(sources@));
    }
    (aggs, rows)
}

// ---------------------------------------------------------------------------
// Completing and scoring
// ---------------------------------------------------------------------------

/// The details listed for a series, the first listed if several are.
pub open spec fn lookup_details(list: Seq<(u32, SuggestionMediaDetails)>, id: u32) -> Option<SuggestionMediaDetails>
    decreases list.len(),
{
    if list.len() == 0 {
        None
    } else if list[0].0 == id {
        Some(list[0].1)
    } else {
        lookup_details(list.drop_first(), id)
    }
}

/// Fetched details win over cached ones.
pub open spec fn details_for(
    fetched: Seq<(u32, SuggestionMediaDetails)>,
    cached: Seq<(u32, SuggestionMediaDetails)>,
    id: u32,
) -> Option<SuggestionMediaDetails> {
    match lookup_details(fetched, id) {
        Some(d) => Some(d),
        None => lookup_details(cached, id),
    }
}

pub open spec fn or_else_text(a: Option<Seq<char>>, b: Option<String>) -> Option<Seq<char>> {
    match a {
        Some(x) => Some(x),
        None => opt_view(b),
    }
}

pub open spec fn or_else_i32(a: Option<i32>, b: Option<i32>) -> Option<i32> {
    match a {
        Some(x) => Some(x),
        None => b,
    }
}

pub open spec fn or_zero(a: Option<i32>) -> int {
    match a {
        Some(x) => x as int,
        None => 0,
    }
}

/// A stored suggestion as specifications see it.
pub struct CandidateView {
    pub meta: MediaView,
    pub total: int,
    pub recommendations: int,
    pub relations: int,
    pub weighted: int,
}

/// A gathered series completed with its details, where it lacked them, and
/// its final score: what it gathered, 0.15 more per relation, the community
/// rating in thousandths and the popularity in millionths.
pub open spec fn candidate_spec(a: AggView, d: Option<SuggestionMediaDetails>) -> CandidateView {
    let m = match d {
        Some(det) => MediaView {
            synopsis: or_else_text(a.meta.synopsis, det.synopsis),
            community_rating: or_else_i32(a.meta.community_rating, det.community_rating),
            popularity: or_else_i32(a.meta.popularity, det.popularity),
            favourites: or_else_i32(a.meta.favourites, det.favourites),
            ..a.meta
        },
        None => a.meta,
    };
    CandidateView {
        meta: m,
        total: a.total,
        recommendations: a.recommendations,
        relations: a.relations,
        weighted: a.weight + 150_000 * a.relations + 1000 * or_zero(m.community_rating) + or_zero(m.popularity),
    }
}

pub open spec fn candidate_view(c: UpsertSuggestionCandidate) -> CandidateView {
    CandidateView {
        meta: MediaView {
            anilist_id: c.anilist_id,
            title: c.title@,
            cover_url: opt_view(c.cover_url),
            synopsis: opt_view(c.synopsis),
            media_format: opt_view(c.media_format),
            publishing_status: opt_view(c.publishing_status),
            tags: c.tags@,
            community_rating: c.community_rating,
            popularity: c.popularity,
            favourites: c.favourites,
        },
        total: c.total_occurrences as int,
        recommendations: c.recommendation_occurrences as int,
        relations: c.relation_occurrences as int,
        weighted: c.weighted_score_micros as int,
    }
}

pub open spec fn candidate_views(s: Seq<UpsertSuggestionCandidate>) -> Seq<CandidateView> {
    s.map_values(|c: UpsertSuggestionCandidate| candidate_view(c))
}

fn find_details<'a>(list: &'a Vec<(u32, SuggestionMediaDetails)>, id: u32) -> (r: Option<&'a SuggestionMediaDetails>)
    ensures
        match r {
            Some(d) => lookup_details(list@, id) == Some(*d),
            None => lookup_details(list@, id) is None,
        },
{
    let mut i: usize = 0;
    assert(list@.skip(0) =~= list@);
    while i < list.len()
        invariant
            i <= list@.len(),
            lookup_details(list@, id) == lookup_details(list@.skip(i as int), id),
        decreases list.len() - i,
    {
        proof {
            assert(list@.skip(i as int).drop_first() =~= list@.skip(i + 1));
            assert(list@.skip(i as int)[0] == list@[i as int]);
        }
        if list[i].0 == id {
            return Some(&list[i].1);
        }
        i = i + 1;
    }
    None
}

fn fill_text(a: Option<String>, b: &Option<String>) -> (r: Option<String>)
    ensures
        opt_view(r) == or_else_text(opt_view(a), *b),
{
    match a {
        Some(x) => Some(x),
        None => clone_opt(b),
    }
}

fn fill_i32(a: Option<i32>, b: Option<i32>) -> (r: Option<i32>)
    ensures
        r == or_else_i32(a, b),
{
    match a {
        Some(x) => Some(x),
        None => b,
    }
}

fn zero_if_none(a: Option<i32>) -> (r: i64)
    ensures
        r == or_zero(a),
{
    match a {
        Some(x) => x as i64,
        None => 0,
    }
}

/// Completes and scores the gathered series, in their order.
pub fn finish_candidates(
    aggs: Vec<AggregatedCandidate>,
    fetched: &Vec<(u32, SuggestionMediaDetails)>,
    cached: &Vec<(u32, SuggestionMediaDetails)>,
) -> (r: Vec<UpsertSuggestionCandidate>)
    requires
        bounded(agg_views(aggs@), 999_999),
    ensures
        candidate_views(r@).len() == aggs@.len(),
        forall|k: int| 0 <= k < aggs@.len() ==> #[trigger] candidate_views(r@)[k] == candidate_spec(
            agg_views(aggs@)[k],
            details_for(fetched@, cached@, aggs@[k].meta.anilist_id),
        ),
{
    let mut out: Vec<UpsertSuggestionCandidate> = Vec::new();
    let mut i: usize = 0;
    while i < aggs.len()
        invariant
            i <= aggs@.len(),
            bounded(agg_views(aggs@), 999_999),
            out@.len() == i,
            forall|k: int| 0 <= k < i ==> #[trigger] candidate_views(out@)[k] == candidate_spec(
                agg_views(aggs@)[k],
                details_for(fetched@, cached@, aggs@[k].meta.anilist_id),
            ),
        decreases aggs.len() - i,
    {
        let a = &aggs[i];
        let ghost av = agg_views(aggs@)[i as int];
        assert(av == agg_view(aggs@[i as int]));
        assert(0 <= av.total <= 999_999);
        let id = a.meta.anilist_id;
        let d = match find_details(fetched, id) {
            Some(d) => Some(d),
            None => find_details(cached, id),
        };
        let meta = a.meta.copy();
        let (synopsis, community_rating, popularity, favourites) = match d {
            Some(det) => (
                fill_text(meta.synopsis, &det.synopsis),
                fill_i32(meta.community_rating, det.community_rating),
                fill_i32(meta.popularity, det.popularity),
                fill_i32(meta.favourites, det.favourites),
            ),
            None => (meta.synopsis, meta.community_rating, meta.popularity, meta.favourites),
        };
        let weighted = a.weight + 150_000 * (a.relation_occurrences as i64) + 1000 * zero_if_none(community_rating)
            + zero_if_none(popularity);
        let c = UpsertSuggestionCandidate {
            anilist_id: id,
            title: meta.title,
            cover_url: meta.cover_url,
            synopsis,
            media_format: meta.media_format,
            publishing_status: meta.publishing_status,
            tags: meta.tags,
            community_rating,
            popularity,
            favourites,
            total_occurrences: a.total_occurrences,
            recommendation_occurrences: a.recommendation_occurrences,
            relation_occurrences: a.relation_occurrences,
            weighted_score_micros: weighted,
        };
        let ghost prev = out@;
        out.push(c);
        proof {
            assert(candidate_views(out@)[i as int] == candidate_view(c));
            assert(candidate_view(c) == candidate_spec(av, details_for(fetched@, cached@, id)));
            assert forall|k: int| 0 <= k < i + 1 implies #[trigger] candidate_views(out@)[k] == candidate_spec(
                agg_views(aggs@)[k],
                details_for(fetched@, cached@, aggs@[k].meta.anilist_id),
            ) by {
                if k < i {
                    assert(out@[k] == prev[k]);
                    assert(candidate_views(out@)[k] == candidate_view(prev[k]));
                    assert(candidate_views(prev)[k] == candidate_view(prev[k]));
                }
            }
        }
        i = i + 1;
    }
    out
}

/// The gathered series that have no cached details, whose details are to be
/// fetched, in their order, as AniList ids.
pub fn uncached_ids(aggs: &Vec<AggregatedCandidate>, cached: &Vec<(u32, SuggestionMediaDetails)>) -> (r: Vec<i32>)
    ensures
        r@ == agg_views(aggs@).filter(|a: AggView| lookup_details(cached@, a.meta.anilist_id) is None)
            .map_values(|a: AggView| a.meta.anilist_id as i32),
{
    let ghost pred = |a: AggView| lookup_details(cached@, a.meta.anilist_id) is None;
    let ghost f = |a: AggView| a.meta.anilist_id as i32;
    let mut out: Vec<i32> = Vec::new();
    let mut i: usize = 0;
    while i < aggs.len()
        invariant
            i <= aggs@.len(),
            pred == (|a: AggView| lookup_details(cached@, a.meta.anilist_id) is None),
            f == (|a: AggView| a.meta.anilist_id as i32),
            out@ == agg_views(aggs@).take(i as int).filter(pred).map_values(f),
        decreases aggs.len() - i,
    {
        let id = aggs[i].meta.anilist_id;
        proof {
            assert(agg_views(aggs@).take(i + 1) =~= agg_views(aggs@).take(i as int).push(agg_views(aggs@)[i as int]));
            agg_views(aggs@).take(i as int).lemma_filter_push(agg_views(aggs@)[i as int], pred);
        }
        let ghost before = agg_views(aggs@).take(i as int).filter(pred);
        if find_details(cached, id).is_none() {
            out.push(id as i32);
            assert(before.push(agg_views(aggs@)[i as int]).map_values(f) =~= before.map_values(f).push(id as i32));
        }
        i = i + 1;
    }
    assert(agg_views(aggs@).take(aggs@.len() as int) =~= agg_views(aggs@));
    out
}

// ---------------------------------------------------------------------------
// Ranking
// ---------------------------------------------------------------------------

/// What a suggestion is ranked by.
pub struct RankKey {
    pub weighted: int,
    pub total: int,
    pub relations: int,
    pub community: int,
    pub popularity: int,
    pub title: Seq<char>,
}

pub open spec fn rank_key(c: CandidateView) -> RankKey {
    RankKey {
        weighted: c.weighted,
        total: c.total,
        relations: c.relations,
        community: or_zero(c.meta.community_rating),
        popularity: or_zero(c.meta.popularity),
        title: c.meta.title,
    }
}

/// Whether `a` ranks before `b`: higher score, then more suggestions, more
/// relations, higher community rating, higher popularity, then title order.
pub open spec fn ranks_before(a: RankKey, b: RankKey) -> bool {
    if a.weighted != b.weighted {
        a.weighted > b.weighted
    } else if a.total != b.total {
        a.total > b.total
    } else if a.relations != b.relations {
        a.relations > b.relations
    } else if a.community != b.community {
        a.community > b.community
    } else if a.popularity != b.popularity {
        a.popularity > b.popularity
    } else {
        seq_lt(a.title, b.title)
    }
}

proof fn lemma_rank_total(a: RankKey, b: RankKey)
    ensures
        !(ranks_before(a, b) && ranks_before(b, a)),
        a == b ==> !ranks_before(a, b),
        a != b ==> ranks_before(a, b) || ranks_before(b, a),
{
    lemma_seq_lt_trichotomy(a.title, b.title);
}

proof fn lemma_rank_transitive(a: RankKey, b: RankKey, c: RankKey)
    requires
        ranks_before(a, b),
        ranks_before(b, c),
    ensures
        ranks_before(a, c),
{
    if a.weighted == b.weighted && b.weighted == c.weighted && a.total == b.total && b.total == c.total
        && a.relations == b.relations && b.relations == c.relations && a.community == b.community
        && b.community == c.community && a.popularity == b.popularity && b.popularity == c.popularity {
        lemma_seq_lt_transitive(a.title, b.title, c.title);
    }
}

pub open spec fn key_of(c: UpsertSuggestionCandidate) -> RankKey {
    rank_key(candidate_view(c))
}

pub open spec fn ranked(s: Seq<UpsertSuggestionCandidate>) -> bool {
    forall|i: int, j: int| 0 <= i < j < s.len() ==> !ranks_before(key_of(s[j]), key_of(s[i]))
}

pub open spec fn key_is(k: RankKey) -> spec_fn(UpsertSuggestionCandidate) -> bool {
    |c: UpsertSuggestionCandidate| key_of(c) == k
}

/// `r` is `s` ranked, suggestions that rank alike keeping their order.
pub open spec fn ranking_of(r: Seq<UpsertSuggestionCandidate>, s: Seq<UpsertSuggestionCandidate>) -> bool {
    &&& ranked(r)
    &&& forall|k: RankKey| #[trigger] r.filter(key_is(k)) == s.filter(key_is(k))
}

fn ranks_before_exec(a: &UpsertSuggestionCandidate, b: &UpsertSuggestionCandidate) -> (r: bool)
    ensures
        r == ranks_before(key_of(*a), key_of(*b)),
{
    let ca = zero_if_none(a.community_rating);
    let cb = zero_if_none(b.community_rating);
    let pa = zero_if_none(a.popularity);
    let pb = zero_if_none(b.popularity);
    if a.weighted_score_micros != b.weighted_score_micros {
        a.weighted_score_micros > b.weighted_score_micros
    } else if a.total_occurrences != b.total_occurrences {
        a.total_occurrences > b.total_occurrences
    } else if a.relation_occurrences != b.relation_occurrences {
        a.relation_occurrences > b.relation_occurrences
    } else if ca != cb {
        ca > cb
    } else if pa != pb {
        pa > pb
    } else {
        str_lt(chars_of(a.title.as_str()).as_slice(), chars_of(b.title.as_str()).as_slice())
    }
}

fn rank_insertion_point(r: &Vec<UpsertSuggestionCandidate>, a: &UpsertSuggestionCandidate) -> (p: usize)
    requires
        ranked(r@),
    ensures
        p <= r@.len(),
        forall|i: int| 0 <= i < p ==> !ranks_before(key_of(*a), key_of(r@[i])),
        forall|i: int| p <= i < r@.len() ==> ranks_before(key_of(*a), key_of(r@[i])),
{
    let mut p: usize = 0;
    while p < r.len() && !ranks_before_exec(a, &r[p])
        invariant
            p <= r@.len(),
            ranked(r@),
            forall|i: int| 0 <= i < p ==> !ranks_before(key_of(*a), key_of(r@[i])),
        decreases r.len() - p,
    {
        p = p + 1;
    }
    proof {
        if p < r@.len() {
            assert forall|i: int| p <= i < r@.len() implies ranks_before(key_of(*a), key_of(r@[i])) by {
                if i > p {
                    lemma_rank_total(key_of(r@[p as int]), key_of(r@[i]));
                    if key_of(r@[p as int]) != key_of(r@[i]) {
                        lemma_rank_transitive(key_of(*a), key_of(r@[p as int]), key_of(r@[i]));
                    }
                }
            }
        }
    }
    p
}

proof fn lemma_rank_insert(before: Seq<UpsertSuggestionCandidate>, p: int, a: UpsertSuggestionCandidate)
    requires
        ranked(before),
        0 <= p <= before.len(),
        forall|i: int| 0 <= i < p ==> !ranks_before(key_of(a), key_of(before[i])),
        forall|i: int| p <= i < before.len() ==> ranks_before(key_of(a), key_of(before[i])),
    ensures
        ranked(before.insert(p, a)),
        forall|k: RankKey| #[trigger] before.insert(p, a).filter(key_is(k)) == before.push(a).filter(key_is(k)),
{
    let r = before.insert(p, a);
    before.insert_ensures(p, a);
    assert forall|x: int, y: int| 0 <= x < y < r.len() implies !ranks_before(key_of(r[y]), key_of(r[x])) by {
        if x < p && y > p {
            assert(r[y] == before[y - 1]);
        } else if x == p {
            assert(r[y] == before[y - 1]);
            lemma_rank_total(key_of(a), key_of(before[y - 1]));
        } else if x > p {
            assert(r[x] == before[x - 1]);
            assert(r[y] == before[y - 1]);
        }
    }
    assert forall|k: RankKey| #[trigger] before.insert(p, a).filter(key_is(k)) == before.push(a).filter(key_is(k)) by {
        let pred = key_is(k);
        let front = before.subrange(0, p);
        let back = before.subrange(p, before.len() as int);
        assert(before =~= front + back);
        assert(before.insert(p, a) =~= front.push(a) + back);
        Seq::filter_distributes_over_add(front.push(a), back, pred);
        Seq::filter_distributes_over_add(front, back, pred);
        front.lemma_filter_push(a, pred);
        before.lemma_filter_push(a, pred);
        if pred(a) {
            assert forall|i: int| 0 <= i < back.len() implies !pred(back[i]) by {
                lemma_rank_total(key_of(a), key_of(back[i]));
            }
            assert(back.all(|x: UpsertSuggestionCandidate| !pred(x)));
            back.lemma_all_neg_filter_empty(pred);
            assert(back.filter(pred) =~= Seq::<UpsertSuggestionCandidate>::empty());
            assert(front.filter(pred).push(a) + back.filter(pred) =~= (front.filter(pred) + back.filter(pred)).push(a));
        }
    }
}

/// Ranks suggestions: higher score first, then more suggestions, more
/// relations, higher community rating, higher popularity, then by title;
/// suggestions that rank alike keep their order.
pub fn rank_candidates(v: Vec<UpsertSuggestionCandidate>) -> (r: Vec<UpsertSuggestionCandidate>)
    ensures
        ranking_of(r@, v@),
{
    let mut r: Vec<UpsertSuggestionCandidate> = Vec::new();
    let mut v = v;
    let ghost all = v@;
    let n = v.len();
    let mut i: usize = 0;
    // Take the candidates out front to back.
    while i < n
        invariant
            n == all.len(),
            i <= n,
            v@ == all.subrange(i as int, n as int),
            ranked(r@),
            forall|k: RankKey| #[trigger] r@.filter(key_is(k)) == all.take(i as int).filter(key_is(k)),
        decreases n - i,
    {
        assert(v@.len() > 0);
        let a = v.remove(0);
        assert(a == all[i as int]);
        assert(v@ =~= all.subrange(i + 1, n as int));
        let p = rank_insertion_point(&r, &a);
        let ghost before = r@;
        r.insert(p, a);
        proof {
            lemma_rank_insert(before, p as int, a);
            assert(all.take(i + 1) =~= all.take(i as int).push(a));
            assert forall|k: RankKey| #[trigger] r@.filter(key_is(k)) == all.take(i + 1).filter(key_is(k)) by {
                before.lemma_filter_push(a, key_is(k));
                all.take(i as int).lemma_filter_push(a, key_is(k));
            }
        }
        i = i + 1;
    }
    assert(all.take(n as int) =~= all);
    r
}

/// No series is suggested twice, none that the library already holds is
/// suggested, and a suggestion's count is its recommendations and relations.
pub proof fn law_suggestions_exclude_library(existing: Seq<u32>, evs: Seq<SuggestionEvent>)
    ensures
        forall|k: int| 0 <= k < aggregate_spec(existing, evs).len() ==>
            !existing.contains(#[trigger] aggregate_spec(existing, evs)[k].meta.anilist_id),
        forall|j: int, k: int| 0 <= j < k < aggregate_spec(existing, evs).len() ==>
            #[trigger] aggregate_spec(existing, evs)[j].meta.anilist_id != #[trigger] aggregate_spec(existing, evs)[k].meta.anilist_id,
        forall|k: int| 0 <= k < aggregate_spec(existing, evs).len() ==>
            #[trigger] aggregate_spec(existing, evs)[k].total == aggregate_spec(existing, evs)[k].recommendations
                + aggregate_spec(existing, evs)[k].relations,
    decreases evs.len(),
{
    lemma_aggregate_bounded(existing, evs);
    let a = aggregate_spec(existing, evs);
    assert forall|j: int, k: int| 0 <= j < k < a.len() implies #[trigger] a[j].meta.anilist_id != #[trigger] a[k].meta.anilist_id by {
        assert(agg_index(a, a[j].meta.anilist_id) == j);
        assert(agg_index(a, a[k].meta.anilist_id) == k);
    }
    if evs.len() > 0 {
        law_suggestions_exclude_library(existing, evs.drop_last());
        let prev = aggregate_spec(existing, evs.drop_last());
        let e = evs.last();
        if counts(existing, e) {
            let k = agg_index(prev, e.target.anilist_id);
            assert(a == step(existing, prev, e));
            lemma_agg_index(prev, e.target.anilist_id);
            assert forall|m: int| 0 <= m < a.len() implies !existing.contains(#[trigger] a[m].meta.anilist_id) by {
                if k >= 0 {
                    if m == k {
                        assert(a[m] == bump(prev[k], e));
                    } else {
                        assert(a[m] == prev[m]);
                    }
                } else if m < prev.len() {
                    assert(a[m] == prev[m]);
                } else {
                    assert(a[m] == bump(fresh(e), e));
                }
            }
        }
    }
}

} // verus!
