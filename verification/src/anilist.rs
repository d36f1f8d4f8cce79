//! What the library reads of AniList media, and how a media entry, its
//! recommendations and its relations become suggestions.

use vstd::prelude::*;
use crate::library_suggestions::{
    media_view, MediaView, RecommendationSuggestion, RelationSuggestion, SuggestionMedia,
};
use crate::suggestions::SuggestionRelationKind;
use crate::text::{
    chars_of, clone_opt, contains, contains_spec, eq_ignore_ascii_case, eq_ignore_ascii_case_spec,
};
use crate::webhook::clone_strings;

verus! {

/// Attempts of one AniList request, at most.
pub const MAX_RETRIES: u32 = 3;

/// Media fetched per batch request, at most (AniList's page size).
pub const BATCH_SIZE: usize = 50;

/// Tags kept on a suggestion, at most.
pub const MAX_SUGGESTION_TAGS: usize = 8;

/// AniList's kind of media.
#[derive(Debug, Clone, Copy, PartialEq, Eq)]
pub enum MediaType {
    Anime,
    Manga,
}

/// AniList's format of a media entry.
#[derive(Debug, Clone, Copy, PartialEq, Eq)]
pub enum MediaFormat {
    Tv,
    TvShort,
    Movie,
    Special,
    Ova,
    Ona,
    Music,
    Manga,
    Novel,
    OneShot,
}

/// AniList's publishing status of a media entry.
#[derive(Debug, Clone, Copy, PartialEq, Eq)]
pub enum MediaStatus {
    Finished,
    Releasing,
    NotYetReleased,
    Cancelled,
    Hiatus,
}

/// The titles of a media entry.
#[derive(Debug)]
pub struct MediaTitle {
    pub romaji: Option<String>,
    pub english: Option<String>,
    pub native: Option<String>,
    pub user_preferred: Option<String>,
}

/// The cover images of a media entry.
#[derive(Debug)]
pub struct MediaCoverImage {
    pub extra_large: Option<String>,
    pub large: Option<String>,
    pub medium: Option<String>,
}

/// What a suggestion reads of an AniList media entry.
#[derive(Debug)]
pub struct Media {
    pub id: Option<i32>,
    pub media_type: Option<MediaType>,
    pub format: Option<MediaFormat>,
    pub status: Option<MediaStatus>,
    pub title: Option<MediaTitle>,
    pub cover_image: Option<MediaCoverImage>,
    /// The description with its markup removed.
    pub synopsis: Option<String>,
    pub genres: Option<Vec<String>>,
    /// The names of the entry's tags, where AniList gives one.
    pub tag_names: Option<Vec<Option<String>>>,
    pub average_score: Option<i32>,
    pub popularity: Option<i32>,
    pub favourites: Option<i32>,
}

/// One recommendation of a media entry.
#[derive(Debug)]
pub struct RecommendationNode {
    pub rating: Option<i32>,
    pub media_recommendation: Option<Media>,
}

/// One relation of a media entry.
#[derive(Debug)]
pub struct RelationEdge {
    pub relation_type: Option<SuggestionRelationKind>,
    pub node: Option<Media>,
}

/// The suggestions that a media entry gives.
#[derive(Debug)]
pub struct AniListSuggestionBundle {
    pub recommendations: Vec<RecommendationSuggestion>,
    pub relations: Vec<RelationSuggestion>,
}

/// Only manga in the manga or one-shot format become suggestions.
pub open spec fn supported_spec(media_type: Option<MediaType>, format: Option<MediaFormat>) -> bool {
    media_type == Some(MediaType::Manga) && (format == Some(MediaFormat::Manga) || format == Some(MediaFormat::OneShot))
}

/// Whether an entry of this kind and format can be a suggestion.
pub fn is_supported_media_type(media_type: Option<MediaType>, format: Option<MediaFormat>) -> (r: bool)
    ensures
        r == supported_spec(media_type, format),
{
    matches!(media_type, Some(MediaType::Manga)) && matches!(format, Some(MediaFormat::Manga) | Some(MediaFormat::OneShot))
}

/// The name of a format.
pub open spec fn format_name(f: MediaFormat) -> Seq<char> {
    match f {
        MediaFormat::Tv => "Tv"@,
        MediaFormat::TvShort => "TvShort"@,
        MediaFormat::Movie => "Movie"@,
        MediaFormat::Special => "Special"@,
        MediaFormat::Ova => "Ova"@,
        MediaFormat::Ona => "Ona"@,
        MediaFormat::Music => "Music"@,
        MediaFormat::Manga => "Manga"@,
        MediaFormat::Novel => "Novel"@,
        MediaFormat::OneShot => "OneShot"@,
    }
}

/// The name of a format.
pub fn format_to_string(format: MediaFormat) -> (r: String)
    ensures
        r@ == format_name(format),
{
    match format {
        MediaFormat::Tv => "Tv",
        MediaFormat::TvShort => "TvShort",
        MediaFormat::Movie => "Movie",
        MediaFormat::Special => "Special",
        MediaFormat::Ova => "Ova",
        MediaFormat::Ona => "Ona",
        MediaFormat::Music => "Music",
        MediaFormat::Manga => "Manga",
        MediaFormat::Novel => "Novel",
        MediaFormat::OneShot => "OneShot",
    }.to_string()
}

/// The publishing status a suggestion shows: finished reads "Completed",
/// releasing reads "Ongoing".
pub open spec fn status_name(s: MediaStatus) -> Seq<char> {
    match s {
        MediaStatus::Finished => "Completed"@,
        MediaStatus::Releasing => "Ongoing"@,
        MediaStatus::NotYetReleased => "NotYetReleased"@,
        MediaStatus::Cancelled => "Cancelled"@,
        MediaStatus::Hiatus => "Hiatus"@,
    }
}

/// The publishing status a suggestion shows.
pub fn status_to_string(status: MediaStatus) -> (r: String)
    ensures
        r@ == status_name(status),
{
    match status {
        MediaStatus::Finished => "Completed",
        MediaStatus::Releasing => "Ongoing",
        MediaStatus::NotYetReleased => "NotYetReleased",
        MediaStatus::Cancelled => "Cancelled",
        MediaStatus::Hiatus => "Hiatus",
    }.to_string()
}

/// The first of `a`, `b` that is present.
pub open spec fn or_else(a: Option<String>, b: Option<String>) -> Option<String> {
    match a {
        Some(x) => Some(x),
        None => b,
    }
}

/// The title a suggestion shows: English, else the user's preferred, else
/// romaji, else native.
pub open spec fn title_spec(t: MediaTitle) -> Option<String> {
    or_else(t.english, or_else(t.user_preferred, or_else(t.romaji, t.native)))
}

/// The English title wins when there is one; without it the user's preferred
/// title, then the romaji one; the native title only when none of those three
/// is given.
pub proof fn law_title_preference(t: MediaTitle)
    ensures
        t.english is Some ==> title_spec(t) == t.english,
        t.english is None && t.user_preferred is Some ==> title_spec(t) == t.user_preferred,
        t.english is None && t.user_preferred is None && t.romaji is Some ==> title_spec(t) == t.romaji,
        t.english is None && t.user_preferred is None && t.romaji is None ==> title_spec(t) == t.native,
        title_spec(t) is None <==> (t.english is None && t.user_preferred is None && t.romaji is None
            && t.native is None),
{
}

/// The title a suggestion shows.
pub fn title_from_media_title(title: &MediaTitle) -> (r: Option<String>)
    ensures
        r == title_spec(*title),
{
    if title.english.is_some() {
        return clone_opt(&title.english);
    }
    if title.user_preferred.is_some() {
        return clone_opt(&title.user_preferred);
    }
    if title.romaji.is_some() {
        return clone_opt(&title.romaji);
    }
    clone_opt(&title.native)
}

/// The cover a suggestion shows: the large image, else the medium one, else
/// the extra large one.
pub open spec fn cover_spec(c: Option<MediaCoverImage>) -> Option<String> {
    match c {
        Some(c) => or_else(c.large, or_else(c.medium, c.extra_large)),
        None => None,
    }
}

/// The cover a suggestion shows.
pub fn cover_from_media_cover(cover: Option<&MediaCoverImage>) -> (r: Option<String>)
    ensures
        r == cover_spec(match cover {
            Some(c) => Some(*c),
            None => None,
        }),
{
    match cover {
        None => None,
        Some(c) => {
            if c.large.is_some() {
                clone_opt(&c.large)
            } else if c.medium.is_some() {
                clone_opt(&c.medium)
            } else {
                clone_opt(&c.extra_large)
            }
        },
    }
}

/// Whether some tag of `tags` equals `name` once ASCII letters are lowercased.
pub open spec fn has_tag_like(tags: Seq<String>, name: Seq<char>) -> bool {
    exists|i: int| 0 <= i < tags.len() && eq_ignore_ascii_case_spec(#[trigger] tags[i]@, name)
}

/// The genres followed by each named tag that no earlier genre or tag
/// matches (ASCII case aside).
pub open spec fn merged_tags(genres: Seq<String>, names: Seq<Option<String>>) -> Seq<String>
    decreases names.len(),
{
    if names.len() == 0 {
        genres
    } else {
        let acc = merged_tags(genres, names.drop_last());
        match names.last() {
            Some(n) => if has_tag_like(acc, n@) {
                acc
            } else {
                acc.push(n)
            },
            None => acc,
        }
    }
}

/// At most the first eight tags.
pub open spec fn capped(tags: Seq<String>) -> Seq<String> {
    if tags.len() > 8 {
        tags.take(8)
    } else {
        tags
    }
}

/// The suggestion a media entry makes, when it makes one.
pub open spec fn suggestion_spec(m: Media) -> Option<MediaView> {
    if !supported_spec(m.media_type, m.format) || m.id is None || m.title is None || title_spec(m.title.unwrap()) is None {
        None
    } else {
        Some(MediaView {
            anilist_id: m.id.unwrap() as u32,
            title: title_spec(m.title.unwrap()).unwrap()@,
            cover_url: match cover_spec(m.cover_image) {
                Some(c) => Some(c@),
                None => None,
            },
            synopsis: match m.synopsis {
                Some(s) => Some(s@),
                None => None,
            },
            media_format: match m.format {
                Some(f) => Some(format_name(f)),
                None => None,
            },
            publishing_status: match m.status {
                Some(s) => Some(status_name(s)),
                None => None,
            },
            tags: capped(
                merged_tags(
                    match m.genres {
                        Some(g) => g@,
                        None => Seq::empty(),
                    },
                    match m.tag_names {
                        Some(t) => t@,
                        None => Seq::empty(),
                    },
                ),
            ),
            community_rating: m.average_score,
            popularity: m.popularity,
            favourites: m.favourites,
        })
    }
}

/// Whether some tag of `tags` is like `name`.
fn tag_like_present(tags: &Vec<String>, name: &str) -> (r: bool)
    ensures
        r == has_tag_like(tags@, name@),
{
    let mut i: usize = 0;
    while i < tags.len()
        invariant
            i <= tags.len(),
            forall|j: int| 0 <= j < i ==> !eq_ignore_ascii_case_spec(#[trigger] tags@[j]@, name@),
        decreases tags.len() - i,
    {
        if eq_ignore_ascii_case(tags[i].as_str(), name) {
            return true;
        }
        i += 1;
    }
    false
}

/// The genres and tag names of an entry, merged and capped at eight.
fn suggestion_tags(genres: &Option<Vec<String>>, names: &Option<Vec<Option<String>>>) -> (r: Vec<String>)
    ensures
        r@ == capped(merged_tags(
            match *genres {
                Some(g) => g@,
                None => Seq::empty(),
            },
            match *names {
                Some(t) => t@,
                None => Seq::empty(),
            },
        )),
{
    let mut tags: Vec<String> = match genres {
        Some(g) => clone_strings(g),
        None => Vec::new(),
    };
    let ghost g0 = tags@;
    match names {
        Some(ns) => {
            let mut i: usize = 0;
            while i < ns.len()
                invariant
                    i <= ns.len(),
                    tags@ == merged_tags(g0, ns@.take(i as int)),
                decreases ns.len() - i,
            {
                proof {
                    assert(ns@.take(i + 1).drop_last() =~= ns@.take(i as int));
                }
                match &ns[i] {
                    Some(n) => {
                        if !tag_like_present(&tags, n.as_str()) {
                            tags.push(n.clone());
                        }
                    },
                    None => {},
                }
                i += 1;
            }
            proof {
                assert(ns@.take(ns.len() as int) =~= ns@);
            }
        },
        None => {
            proof {
                assert(merged_tags(g0, Seq::<Option<String>>::empty()) == g0);
            }
        },
    }
    if tags.len() > MAX_SUGGESTION_TAGS {
        tags.truncate(MAX_SUGGESTION_TAGS);
    }
    tags
}

/// The suggestion a media entry makes: only supported manga with an id and
/// a title do.
pub fn suggestion_media_from_media(node: &Media) -> (r: Option<SuggestionMedia>)
    ensures
        match suggestion_spec(*node) {
            Some(v) => r matches Some(s) && media_view(s) == v,
            None => r is None,
        },
{
    if !is_supported_media_type(node.media_type, node.format) {
        return None;
    }
    let id = match node.id {
        Some(id) => id,
        None => return None,
    };
    let anilist_id = id as u32;
    let title = match &node.title {
        Some(t) => match title_from_media_title(t) {
            Some(s) => s,
            None => return None,
        },
        None => return None,
    };
    let tags = suggestion_tags(&node.genres, &node.tag_names);
    let cover_url = cover_from_media_cover(match &node.cover_image {
        Some(c) => Some(c),
        None => None,
    });
    let media_format = match node.format {
        Some(f) => Some(format_to_string(f)),
        None => None,
    };
    let publishing_status = match node.status {
        Some(s) => Some(status_to_string(s)),
        None => None,
    };
    Some(SuggestionMedia {
        anilist_id,
        title,
        cover_url,
        synopsis: clone_opt(&node.synopsis),
        media_format,
        publishing_status,
        tags,
        community_rating: node.average_score,
        popularity: node.popularity,
        favourites: node.favourites,
    })
}

/// The recommendations that become suggestions, in order, with their ratings.
pub open spec fn recommendation_targets(nodes: Seq<RecommendationNode>) -> Seq<(MediaView, Option<i32>)>
    decreases nodes.len(),
{
    if nodes.len() == 0 {
        Seq::empty()
    } else {
        let rest = recommendation_targets(nodes.drop_last());
        let n = nodes.last();
        match n.media_recommendation {
            Some(m) => match suggestion_spec(m) {
                Some(v) => rest.push((v, n.rating)),
                None => rest,
            },
            None => rest,
        }
    }
}

/// The relations that become suggestions, in order, with their kinds.
pub open spec fn relation_targets(edges: Seq<RelationEdge>) -> Seq<(MediaView, SuggestionRelationKind)>
    decreases edges.len(),
{
    if edges.len() == 0 {
        Seq::empty()
    } else {
        let rest = relation_targets(edges.drop_last());
        let e = edges.last();
        match (e.relation_type, e.node) {
            (Some(k), Some(m)) => match suggestion_spec(m) {
                Some(v) => rest.push((v, k)),
                None => rest,
            },
            _ => rest,
        }
    }
}

/// The suggestions that a media entry's recommendations and relations give:
/// those whose target makes a suggestion, in order.
pub fn suggestion_bundle_from_media(
    recommendations: &Option<Vec<RecommendationNode>>,
    relations: &Option<Vec<RelationEdge>>,
) -> (b: AniListSuggestionBundle)
    ensures
        b.recommendations@.map_values(|r: RecommendationSuggestion| (media_view(r.target), r.rating)) == match *recommendations {
            Some(n) => recommendation_targets(n@),
            None => Seq::empty(),
        },
        b.relations@.map_values(|r: RelationSuggestion| (media_view(r.target), r.relation_type)) == match *relations {
            Some(e) => relation_targets(e@),
            None => Seq::empty(),
        },
{
    let mut recs: Vec<RecommendationSuggestion> = Vec::new();
    match recommendations {
        Some(nodes) => {
            let mut i: usize = 0;
            while i < nodes.len()
                invariant
                    i <= nodes.len(),
                    recs@.map_values(|r: RecommendationSuggestion| (media_view(r.target), r.rating)) == recommendation_targets(
                        nodes@.take(i as int),
                    ),
                decreases nodes.len() - i,
            {
                proof {
                    assert(nodes@.take(i + 1).drop_last() =~= nodes@.take(i as int));
                }
                let ghost before = recs@;
                match &nodes[i].media_recommendation {
                    Some(m) => match suggestion_media_from_media(m) {
                        Some(target) => {
                            let s = RecommendationSuggestion { target, rating: nodes[i].rating };
                            recs.push(s);
                            proof {
                                assert(recs@.map_values(|r: RecommendationSuggestion| (media_view(r.target), r.rating)) =~= before.map_values(
                                    |r: RecommendationSuggestion| (media_view(r.target), r.rating),
                                ).push((media_view(s.target), s.rating)));
                            }
                        },
                        None => {},
                    },
                    None => {},
                }
                i += 1;
            }
            proof {
                assert(nodes@.take(nodes.len() as int) =~= nodes@);
            }
        },
        None => {
            proof {
                assert(recs@.map_values(|r: RecommendationSuggestion| (media_view(r.target), r.rating)) =~= Seq::empty());
            }
        },
    }
    let mut rels: Vec<RelationSuggestion> = Vec::new();
    match relations {
        Some(edges) => {
            let mut i: usize = 0;
            while i < edges.len()
                invariant
                    i <= edges.len(),
                    rels@.map_values(|r: RelationSuggestion| (media_view(r.target), r.relation_type)) == relation_targets(
                        edges@.take(i as int),
                    ),
                decreases edges.len() - i,
            {
                proof {
                    assert(edges@.take(i + 1).drop_last() =~= edges@.take(i as int));
                }
                let ghost before = rels@;
                match (&edges[i].relation_type, &edges[i].node) {
                    (Some(k), Some(m)) => match suggestion_media_from_media(m) {
                        Some(target) => {
                            let s = RelationSuggestion { target, relation_type: *k };
                            rels.push(s);
                            proof {
                                assert(rels@.map_values(|r: RelationSuggestion| (media_view(r.target), r.relation_type)) =~= before.map_values(
                                    |r: RelationSuggestion| (media_view(r.target), r.relation_type),
                                ).push((media_view(s.target), s.relation_type)));
                            }
                        },
                        None => {},
                    },
                    _ => {},
                }
                i += 1;
            }
            proof {
                assert(edges@.take(edges.len() as int) =~= edges@);
            }
        },
        None => {
            proof {
                assert(rels@.map_values(|r: RelationSuggestion| (media_view(r.target), r.relation_type)) =~= Seq::empty());
            }
        },
    }
    AniListSuggestionBundle { recommendations: recs, relations: rels }
}

// ---------------------------------------------------------------------------
// Requests
// ---------------------------------------------------------------------------

/// Whether the text of an error shows a rate limit: it holds "429",
/// "rate", "Rate", "limit" or "Limit".
pub open spec fn rate_limit_text_spec(t: Seq<char>) -> bool {
    ||| contains_spec(t, "429"@)
    ||| contains_spec(t, "rate"@)
    ||| contains_spec(t, "Rate"@)
    ||| contains_spec(t, "limit"@)
    ||| contains_spec(t, "Limit"@)
}

/// Whether the text of an error shows a rate limit.
pub fn is_rate_limit_error(error_text: &str) -> (r: bool)
    ensures
        r == rate_limit_text_spec(error_text@),
{
    let t = chars_of(error_text);
    let a = chars_of("429");
    let b = chars_of("rate");
    let c = chars_of("Rate");
    let d = chars_of("limit");
    let e = chars_of("Limit");
    contains(t.as_slice(), a.as_slice()) || contains(t.as_slice(), b.as_slice()) || contains(t.as_slice(), c.as_slice())
        || contains(t.as_slice(), d.as_slice()) || contains(t.as_slice(), e.as_slice())
}

/// Whether a failed attempt is tried again: only a rate-limited one, and
/// only while attempts are left.
pub fn retry_on_error(attempt: u32, rate_limited: bool) -> (r: bool)
    ensures
        r == (rate_limited && attempt + 1 < MAX_RETRIES),
{
    rate_limited && attempt < MAX_RETRIES - 1
}

/// `ids` split into runs of `BATCH_SIZE`, the last one shorter when needed.
pub open spec fn chunks_of(ids: Seq<i32>, cs: Seq<Seq<i32>>) -> bool {
    &&& cs.len() == (ids.len() + 49) / 50
    &&& forall|k: int| 0 <= k < cs.len() ==> #[trigger] cs[k] == ids.subrange(50 * k, if 50 * k + 50 <= ids.len() {
        50 * k + 50
    } else {
        ids.len() as int
    })
}

/// The batches in which ids are fetched, in order.
pub fn id_chunks(ids: &[i32]) -> (r: Vec<Vec<i32>>)
    ensures
        chunks_of(ids@, r@.map_values(|c: Vec<i32>| c@)),
{
    let mut r: Vec<Vec<i32>> = Vec::new();
    let mut start: usize = 0;
    let n = ids.len();
    while start < n
        invariant
            n == ids@.len(),
            start <= n,
            start == 50 * r.len() || (start == n && r.len() == (n + 49) / 50),
            start < n ==> start == 50 * r.len(),
            r.len() == (start + 49) / 50,
            forall|k: int| 0 <= k < r.len() ==> #[trigger] r@[k]@ == ids@.subrange(50 * k, if 50 * k + 50 <= n {
                50 * k + 50
            } else {
                n as int
            }),
        decreases n - start,
    {
        let end = if n - start > BATCH_SIZE {
            start + BATCH_SIZE
        } else {
            n
        };
        let mut c: Vec<i32> = Vec::new();
        let mut i = start;
        while i < end
            invariant
                start <= i <= end <= n,
                n == ids@.len(),
                c@ == ids@.subrange(start as int, i as int),
            decreases end - i,
        {
            c.push(ids[i]);
            i += 1;
            proof {
                assert(c@ =~= ids@.subrange(start as int, i as int));
            }
        }
        let ghost before = r@;
        r.push(c);
        proof {
            assert forall|k: int| 0 <= k < r.len() implies #[trigger] r@[k]@ == ids@.subrange(50 * k, if 50 * k + 50 <= n {
                50 * k + 50
            } else {
                n as int
            }) by {
                if k < before.len() {
                    assert(r@[k] == before[k]);
                }
            }
        }
        start = end;
    }
    proof {
        let cs = r@.map_values(|c: Vec<i32>| c@);
        assert forall|k: int| 0 <= k < cs.len() implies #[trigger] cs[k] == ids@.subrange(50 * k, if 50 * k + 50 <= ids@.len() {
            50 * k + 50
        } else {
            ids@.len() as int
        }) by {
            assert(cs[k] == r@[k]@);
        }
    }
    r
}

} // verus!
