//! Series records: their stored status names, their alternative titles, and
//! the checks and choices made when a series is added.

use vstd::prelude::*;
use crate::errors::{bad_request, is_failure, ApiFailure, ApiStatus};
use crate::ids::{manga_uuid, manual_manga_uuid, uuid_text, uuid_v5, MANGA_NAMESPACE};
use crate::text::{
    chars_of, clone_opt, lemma_seq_lt_transitive, lemma_seq_lt_trichotomy, nat_digits, opt_view, seq_lt,
    str_eq, str_lt, trim, trim_seq,
};
use crate::webhook::strictly_sorted;
use crate::webhook::clone_strings;

verus! {

// ---------------------------------------------------------------------------
// Stored names
// ---------------------------------------------------------------------------

/// Where a series is in its publication.
#[derive(Debug, Clone, Copy, PartialEq, Eq, Structural)]
pub enum PublishingStatus {
    Completed,
    Ongoing,
    Hiatus,
    Cancelled,
    NotYetReleased,
    Unknown,
}

pub open spec fn publishing_status_name(s: PublishingStatus) -> Seq<char> {
    match s {
        PublishingStatus::Completed => "Completed"@,
        PublishingStatus::Ongoing => "Ongoing"@,
        PublishingStatus::Hiatus => "Hiatus"@,
        PublishingStatus::Cancelled => "Cancelled"@,
        PublishingStatus::NotYetReleased => "NotYetReleased"@,
        PublishingStatus::Unknown => "Unknown"@,
    }
}

/// The name under which a publishing status is stored.
pub fn publishing_status_str(s: &PublishingStatus) -> (r: &'static str)
    ensures
        r@ == publishing_status_name(*s),
{
    match s {
        PublishingStatus::Completed => "Completed",
        PublishingStatus::Ongoing => "Ongoing",
        PublishingStatus::Hiatus => "Hiatus",
        PublishingStatus::Cancelled => "Cancelled",
        PublishingStatus::NotYetReleased => "NotYetReleased",
        PublishingStatus::Unknown => "Unknown",
    }
}

/// A stored publishing status: unknown names read as `Unknown`.
pub open spec fn parse_publishing_status_spec(s: Seq<char>) -> PublishingStatus {
    if s == "Completed"@ {
        PublishingStatus::Completed
    } else if s == "Ongoing"@ {
        PublishingStatus::Ongoing
    } else if s == "Hiatus"@ {
        PublishingStatus::Hiatus
    } else if s == "Cancelled"@ {
        PublishingStatus::Cancelled
    } else if s == "NotYetReleased"@ {
        PublishingStatus::NotYetReleased
    } else {
        PublishingStatus::Unknown
    }
}

pub fn parse_publishing_status(s: &str) -> (r: PublishingStatus)
    ensures
        r == parse_publishing_status_spec(s@),
{
    if str_eq(s, "Completed") {
        PublishingStatus::Completed
    } else if str_eq(s, "Ongoing") {
        PublishingStatus::Ongoing
    } else if str_eq(s, "Hiatus") {
        PublishingStatus::Hiatus
    } else if str_eq(s, "Cancelled") {
        PublishingStatus::Cancelled
    } else if str_eq(s, "NotYetReleased") {
        PublishingStatus::NotYetReleased
    } else {
        PublishingStatus::Unknown
    }
}

/// A publishing status reads back as itself from its stored name.
pub proof fn law_publishing_status_round_trip(s: PublishingStatus)
    ensures
        parse_publishing_status_spec(publishing_status_name(s)) == s,
{
    reveal_strlit("Completed");
    reveal_strlit("Ongoing");
    reveal_strlit("Hiatus");
    reveal_strlit("Cancelled");
    reveal_strlit("NotYetReleased");
    reveal_strlit("Unknown");
    match s {
        PublishingStatus::Ongoing => {
            assert("Ongoing"@.len() != "Completed"@.len());
        },
        PublishingStatus::Hiatus => {
            assert("Hiatus"@.len() != "Completed"@.len());
            assert("Hiatus"@.len() != "Ongoing"@.len());
        },
        PublishingStatus::Cancelled => {
            assert("Cancelled"@[1] != "Completed"@[1]);
            assert("Cancelled"@.len() != "Ongoing"@.len());
            assert("Cancelled"@.len() != "Hiatus"@.len());
        },
        PublishingStatus::NotYetReleased => {
            assert("NotYetReleased"@.len() != "Completed"@.len());
            assert("NotYetReleased"@.len() != "Ongoing"@.len());
            assert("NotYetReleased"@.len() != "Hiatus"@.len());
            assert("NotYetReleased"@.len() != "Cancelled"@.len());
        },
        PublishingStatus::Unknown => {
            assert("Unknown"@.len() != "Completed"@.len());
            assert("Unknown"@[0] != "Ongoing"@[0]);
            assert("Unknown"@.len() != "Hiatus"@.len());
            assert("Unknown"@.len() != "Cancelled"@.len());
            assert("Unknown"@.len() != "NotYetReleased"@.len());
        },
        _ => {},
    }
}

/// Where a series' metadata comes from.
#[derive(Debug, Clone, Copy, PartialEq, Eq, Structural)]
pub enum MangaSource {
    AniList,
    Local,
}

pub open spec fn metadata_source_name(s: MangaSource) -> Seq<char> {
    match s {
        MangaSource::AniList => "AniList"@,
        MangaSource::Local => "Local"@,
    }
}

/// The name under which a metadata source is stored.
pub fn metadata_source_str(s: &MangaSource) -> (r: &'static str)
    ensures
        r@ == metadata_source_name(*s),
{
    match s {
        MangaSource::AniList => "AniList",
        MangaSource::Local => "Local",
    }
}

/// A stored metadata source: anything but "AniList" reads as `Local`.
pub fn parse_metadata_source(s: &str) -> (r: MangaSource)
    ensures
        r == (if s@ == "AniList"@ { MangaSource::AniList } else { MangaSource::Local }),
{
    if str_eq(s, "AniList") {
        MangaSource::AniList
    } else {
        MangaSource::Local
    }
}

/// A metadata source reads back as itself from its stored name.
pub proof fn law_metadata_source_round_trip(s: MangaSource)
    ensures
        (if metadata_source_name(s) == "AniList"@ { MangaSource::AniList } else { MangaSource::Local }) == s,
{
    reveal_strlit("AniList");
    reveal_strlit("Local");
    assert("Local"@.len() != "AniList"@.len());
}

// ---------------------------------------------------------------------------
// Alternative titles
// ---------------------------------------------------------------------------

/// Where an alternative title came from.
#[derive(Debug, Clone, Copy, PartialEq, Eq, Structural)]
pub enum SynonymSource {
    AniList,
    Manual,
}

/// An alternative title of a series.
#[derive(Debug)]
pub struct Synonym {
    pub title: String,
    pub source: SynonymSource,
    /// Hidden titles are not searched for.
    pub hidden: bool,
    pub filter_reason: Option<String>,
}

/// Titles to add (as manual ones), to hide (AniList ones) and to remove
/// (manual ones; AniList ones are shown again instead).
#[derive(Debug)]
pub struct UpdateSynonymsRequest {
    pub add: Option<Vec<String>>,
    pub hide: Option<Vec<String>>,
    pub remove: Option<Vec<String>>,
}

/// An alternative title as specifications see it.
pub struct SynonymView {
    pub title: Seq<char>,
    pub source: SynonymSource,
    pub hidden: bool,
    pub filter_reason: Option<Seq<char>>,
}

pub open spec fn synonym_view(s: Synonym) -> SynonymView {
    SynonymView { title: s.title@, source: s.source, hidden: s.hidden, filter_reason: opt_view(s.filter_reason) }
}

pub open spec fn synonym_views(s: Seq<Synonym>) -> Seq<SynonymView> {
    s.map_values(|x: Synonym| synonym_view(x))
}

pub open spec fn has_title(s: Seq<SynonymView>, t: Seq<char>) -> bool {
    exists|i: int| 0 <= i < s.len() && #[trigger] s[i].title == t
}

/// Adding a title: trimmed; nothing when blank or already there.
pub open spec fn add_title(s: Seq<SynonymView>, t: Seq<char>) -> Seq<SynonymView> {
    let tt = trim_seq(t);
    if tt.len() == 0 || has_title(s, tt) {
        s
    } else {
        s.push(SynonymView { title: tt, source: SynonymSource::Manual, hidden: false, filter_reason: None })
    }
}

pub open spec fn add_titles(s: Seq<SynonymView>, ts: Seq<Seq<char>>) -> Seq<SynonymView>
    decreases ts.len(),
{
    if ts.len() == 0 {
        s
    } else {
        add_title(add_titles(s, ts.drop_last()), ts.last())
    }
}

/// Whether hiding `t` hides the title: an AniList title equal to it, as is
/// or trimmed.
pub open spec fn hides(x: SynonymView, tt: Seq<char>) -> bool {
    x.source == SynonymSource::AniList && (x.title == tt || trim_seq(x.title) == tt)
}

/// Hiding a title (trimmed; nothing when blank): the AniList titles it
/// matches are hidden with the reason "manual".
pub open spec fn hide_title(s: Seq<SynonymView>, t: Seq<char>) -> Seq<SynonymView> {
    let tt = trim_seq(t);
    if tt.len() == 0 {
        s
    } else {
        s.map_values(|x: SynonymView| if hides(x, tt) {
            SynonymView { hidden: true, filter_reason: Some("manual"@), ..x }
        } else {
            x
        })
    }
}

pub open spec fn hide_titles(s: Seq<SynonymView>, ts: Seq<Seq<char>>) -> Seq<SynonymView>
    decreases ts.len(),
{
    if ts.len() == 0 {
        s
    } else {
        hide_title(hide_titles(s, ts.drop_last()), ts.last())
    }
}

/// Whether a title is named for removal (names that are blank once trimmed
/// do not count; the others are compared as given).
pub open spec fn named_for_removal(ts: Seq<Seq<char>>, t: Seq<char>) -> bool {
    exists|i: int| 0 <= i < ts.len() && #[trigger] ts[i] == t && trim_seq(ts[i]).len() > 0
}

/// Removing titles: manual ones named go; AniList ones named are shown again.
pub open spec fn remove_titles(s: Seq<SynonymView>, ts: Seq<Seq<char>>) -> Seq<SynonymView>
    decreases s.len(),
{
    if s.len() == 0 {
        s
    } else {
        let rest = remove_titles(s.drop_last(), ts);
        let x = s.last();
        if named_for_removal(ts, x.title) {
            if x.source == SynonymSource::AniList {
                rest.push(SynonymView { hidden: false, ..x })
            } else {
                rest
            }
        } else {
            rest.push(x)
        }
    }
}

pub open spec fn views_of(v: Option<Vec<String>>) -> Option<Seq<Seq<char>>> {
    match v {
        Some(l) => Some(l@.map_values(|t: String| t@)),
        None => None,
    }
}

/// The alternative titles after an update: additions, then hidings, then removals.
pub open spec fn update_synonyms_spec(s: Seq<SynonymView>, req: UpdateSynonymsRequest) -> Seq<SynonymView> {
    let a = match views_of(req.add) { Some(ts) => add_titles(s, ts), None => s };
    let h = match views_of(req.hide) { Some(ts) => hide_titles(a, ts), None => a };
    match views_of(req.remove) { Some(ts) => remove_titles(h, ts), None => h }
}

fn add_one(syns: &mut Vec<Synonym>, t: &String)
    ensures
        synonym_views(final(syns)@) == add_title(synonym_views(old(syns)@), t@),
{
    let tt = trim(t.as_str());
    if tt.as_str().unicode_len() == 0 {
        return;
    }
    let ghost v = synonym_views(syns@);
    let mut i: usize = 0;
    while i < syns.len()
        invariant
            i <= syns@.len(),
            v == synonym_views(syns@),
            syns@ == old(syns)@,
            tt@ == trim_seq(t@),
            tt@.len() > 0,
            forall|j: int| 0 <= j < i ==> v[j].title != tt@,
        decreases syns.len() - i,
    {
        if str_eq(syns[i].title.as_str(), tt.as_str()) {
            assert(v[i as int].title == tt@);
            assert(has_title(v, trim_seq(t@)));
            return;
        }
        i = i + 1;
    }
    syns.push(Synonym { title: tt, source: SynonymSource::Manual, hidden: false, filter_reason: None });
    assert(synonym_views(syns@) =~= add_title(v, t@));
}

fn hide_one(syns: &mut Vec<Synonym>, t: &String)
    ensures
        synonym_views(final(syns)@) == hide_title(synonym_views(old(syns)@), t@),
{
    let tt = trim(t.as_str());
    if tt.as_str().unicode_len() == 0 {
        return;
    }
    let ghost v = synonym_views(syns@);
    let ghost want = hide_title(v, t@);
    let mut out: Vec<Synonym> = Vec::new();
    let mut i: usize = 0;
    while i < syns.len()
        invariant
            i <= syns@.len(),
            v == synonym_views(syns@),
            want == hide_title(v, t@),
            tt@ == trim_seq(t@),
            tt@.len() > 0,
            synonym_views(out@) == want.take(i as int),
        decreases syns.len() - i,
    {
        let x = &syns[i];
        let hit = x.source == SynonymSource::AniList && (str_eq(x.title.as_str(), tt.as_str())
            || str_eq(trim(x.title.as_str()).as_str(), tt.as_str()));
        let y = if hit {
            Synonym { title: x.title.clone(), source: x.source, hidden: true, filter_reason: Some("manual".to_owned()) }
        } else {
            Synonym { title: x.title.clone(), source: x.source, hidden: x.hidden, filter_reason: clone_opt(&x.filter_reason) }
        };
        let ghost prev = synonym_views(out@);
        out.push(y);
        proof {
            assert(v[i as int] == synonym_view(*x));
            assert(hit == hides(v[i as int], tt@));
            assert(want[i as int] == synonym_view(y));
            assert(synonym_views(out@) =~= prev.push(synonym_view(y)));
            assert(want.take(i + 1) =~= want.take(i as int).push(want[i as int]));
        }
        i = i + 1;
    }
    assert(want.take(want.len() as int) =~= want);
    *syns = out;
}

fn named(ts: &Vec<String>, t: &String) -> (r: bool)
    ensures
        r == named_for_removal(ts@.map_values(|x: String| x@), t@),
{
    let ghost tv = ts@.map_values(|x: String| x@);
    let mut i: usize = 0;
    while i < ts.len()
        invariant
            i <= ts@.len(),
            tv == ts@.map_values(|x: String| x@),
            forall|j: int| 0 <= j < i ==> !(tv[j] == t@ && trim_seq(tv[j]).len() > 0),
        decreases ts.len() - i,
    {
        if str_eq(ts[i].as_str(), t.as_str()) && trim(ts[i].as_str()).as_str().unicode_len() > 0 {
            assert(tv[i as int] == t@ && trim_seq(tv[i as int]).len() > 0);
            return true;
        }
        i = i + 1;
    }
    false
}

fn remove_named(syns: Vec<Synonym>, ts: &Vec<String>) -> (r: Vec<Synonym>)
    ensures
        synonym_views(r@) == remove_titles(synonym_views(syns@), ts@.map_values(|x: String| x@)),
{
    let ghost tv = ts@.map_values(|x: String| x@);
    let ghost v = synonym_views(syns@);
    let mut out: Vec<Synonym> = Vec::new();
    let mut i: usize = 0;
    while i < syns.len()
        invariant
            i <= syns@.len(),
            v == synonym_views(syns@),
            tv == ts@.map_values(|x: String| x@),
            synonym_views(out@) == remove_titles(v.take(i as int), tv),
        decreases syns.len() - i,
    {
        let x = &syns[i];
        proof {
            assert(v.take(i + 1).drop_last() =~= v.take(i as int));
            assert(v.take(i + 1).last() == synonym_view(*x));
        }
        let ghost prev = synonym_views(out@);
        if named(ts, &x.title) {
            if x.source == SynonymSource::AniList {
                out.push(Synonym { title: x.title.clone(), source: x.source, hidden: false, filter_reason: clone_opt(&x.filter_reason) });
                assert(synonym_views(out@) =~= prev.push(SynonymView { hidden: false, ..synonym_view(*x) }));
            }
        } else {
            out.push(Synonym { title: x.title.clone(), source: x.source, hidden: x.hidden, filter_reason: clone_opt(&x.filter_reason) });
            assert(synonym_views(out@) =~= prev.push(synonym_view(*x)));
        }
        i = i + 1;
    }
    assert(v.take(v.len() as int) =~= v);
    out
}

/// Updates a series' alternative titles: adds (trimmed, once each, as manual
/// titles), then hides (AniList titles, with the reason "manual"), then
/// removes (manual titles go, AniList titles are shown again).
pub fn update_synonyms(synonyms: Vec<Synonym>, req: &UpdateSynonymsRequest) -> (r: Vec<Synonym>)
    ensures
        synonym_views(r@) == update_synonyms_spec(synonym_views(synonyms@), *req),
{
    let mut syns = synonyms;
    let ghost s0 = synonym_views(syns@);
    if let Some(add) = &req.add {
        let ghost tv = add@.map_values(|x: String| x@);
        let mut i: usize = 0;
        while i < add.len()
            invariant
                i <= add@.len(),
                tv == add@.map_values(|x: String| x@),
                synonym_views(syns@) == add_titles(s0, tv.take(i as int)),
            decreases add.len() - i,
        {
            proof {
                assert(tv.take(i + 1).drop_last() =~= tv.take(i as int));
            }
            add_one(&mut syns, &add[i]);
            i = i + 1;
        }
        assert(tv.take(tv.len() as int) =~= tv);
    }
    let ghost s1 = synonym_views(syns@);
    if let Some(hide) = &req.hide {
        let ghost tv = hide@.map_values(|x: String| x@);
        let mut i: usize = 0;
        while i < hide.len()
            invariant
                i <= hide@.len(),
                tv == hide@.map_values(|x: String| x@),
                synonym_views(syns@) == hide_titles(s1, tv.take(i as int)),
            decreases hide.len() - i,
        {
            proof {
                assert(tv.take(i + 1).drop_last() =~= tv.take(i as int));
            }
            hide_one(&mut syns, &hide[i]);
            i = i + 1;
        }
        assert(tv.take(tv.len() as int) =~= tv);
    }
    match &req.remove {
        Some(remove) => remove_named(syns, remove),
        None => syns,
    }
}

// ---------------------------------------------------------------------------
// Adding a series
// ---------------------------------------------------------------------------

/// A request to add a series from AniList.
#[derive(Debug)]
pub struct AddMangaRequest {
    pub anilist_id: i32,
    pub library_id: String,
    pub relative_path: String,
}

/// A request to add a series by hand.
#[derive(Debug)]
pub struct AddMangaManualRequest {
    pub library_id: String,
    pub relative_path: String,
    pub title: String,
    pub other_titles: Option<Vec<String>>,
    pub synopsis: Option<String>,
    pub publishing_status: Option<PublishingStatus>,
    pub tags: Option<Vec<String>>,
    pub start_year: Option<i32>,
    pub end_year: Option<i32>,
    pub cover_url: Option<String>,
}

/// A request to remove a series, with or without its files.
#[derive(Debug)]
pub struct DeleteMangaRequest {
    pub delete_files: Option<bool>,
}

/// A request to set a series' cover from a URL.
#[derive(Debug)]
pub struct SetCoverUrlRequest {
    pub url: String,
}

/// The 128-bit value of a UUID written as text, in any form the `uuid` crate
/// reads, or `None` when the text is none.
pub uninterp spec fn uuid_parsed(s: Seq<char>) -> Option<u128>;

/// `uuid::Uuid::parse_str`. The contract names the result and states what the
/// crate documents of the hyphenated form it writes: it reads back.
#[verifier::external_body]
pub(crate) fn parse_uuid(s: &str) -> (r: Option<u128>)
    ensures
        r == uuid_parsed(s@),
        forall|u: u128| s@ == uuid_text(u) ==> r == Some(u),
{
    uuid::Uuid::parse_str(s).ok().map(|u| u.as_u128())
}

/// Checks of a request to add a series: a relative path that is not blank,
/// then a library id that reads as a UUID.
pub fn check_add_manga(req: &AddMangaRequest) -> (r: Result<u128, ApiFailure>)
    ensures
        trim_seq(req.relative_path@).len() == 0 ==> (r matches Err(f) && is_failure(f, ApiStatus::BadRequest, "relative_path cannot be empty"@)),
        trim_seq(req.relative_path@).len() > 0 ==> match uuid_parsed(req.library_id@) {
            Some(id) => r == Ok::<u128, ApiFailure>(id),
            None => r matches Err(f) && is_failure(f, ApiStatus::BadRequest, "invalid library_id UUID"@),
        },
{
    if trim(req.relative_path.as_str()).as_str().unicode_len() == 0 {
        return Err(bad_request("relative_path cannot be empty"));
    }
    match parse_uuid(req.library_id.as_str()) {
        Some(id) => Ok(id),
        None => Err(bad_request("invalid library_id UUID")),
    }
}

/// The id of an added series: from its AniList id when it has one, else
/// from its trimmed relative path.
pub fn added_manga_id(anilist_id: Option<u32>, relative_path: &str) -> (r: u128)
    ensures
        r == match anilist_id {
            Some(a) => uuid_v5(MANGA_NAMESPACE, nat_digits(a as nat)),
            None => uuid_v5(MANGA_NAMESPACE, trim_seq(relative_path@)),
        },
{
    match anilist_id {
        Some(a) => manga_uuid(a),
        None => {
            let t = trim(relative_path);
            manual_manga_uuid(t.as_str())
        },
    }
}

/// Whether a series is monitored once added: unless it is completed and
/// completed series are set to be unmonitored.
pub open spec fn monitored_spec(auto_unmonitor_completed: bool, status: PublishingStatus) -> bool {
    !(auto_unmonitor_completed && status == PublishingStatus::Completed)
}

pub fn monitored_on_add(auto_unmonitor_completed: bool, status: PublishingStatus) -> (r: bool)
    ensures
        r == monitored_spec(auto_unmonitor_completed, status),
{
    !(auto_unmonitor_completed && status == PublishingStatus::Completed)
}

/// The message of an add refused because the library has the series.
pub fn duplicate_message(title: &str, existing_id: u128) -> (r: ApiFailure)
    ensures
        is_failure(r, ApiStatus::Conflict, "This manga ("@ + title@ + ") already exists in this library with ID: "@ + uuid_text(existing_id)),
{
    let mut m = "This manga (".to_owned();
    crate::text::push_str(&mut m, title);
    crate::text::push_str(&mut m, ") already exists in this library with ID: ");
    let id = crate::ids::uuid_string(existing_id);
    crate::text::push_str(&mut m, id.as_str());
    ApiFailure { status: ApiStatus::Conflict, body: crate::errors::ApiError { error: m } }
}

/// A series added by hand, before its cover is fetched and it is stored.
#[derive(Debug)]
pub struct ManualManga {
    pub id: u128,
    pub library_id: u128,
    pub title: String,
    pub other_titles: Option<Vec<Synonym>>,
    pub synopsis: Option<String>,
    pub publishing_status: PublishingStatus,
    pub tags: Vec<String>,
    pub start_year: Option<i32>,
    pub end_year: Option<i32>,
    pub relative_path: String,
    pub thumbnail_url: Option<String>,
    pub monitored: bool,
}

/// Manual titles from the given ones: trimmed, blank ones left out.
pub open spec fn manual_synonyms(ts: Seq<Seq<char>>) -> Seq<SynonymView>
    decreases ts.len(),
{
    if ts.len() == 0 {
        Seq::empty()
    } else {
        let rest = manual_synonyms(ts.drop_last());
        let t = trim_seq(ts.last());
        if t.len() == 0 {
            rest
        } else {
            rest.push(SynonymView { title: t, source: SynonymSource::Manual, hidden: false, filter_reason: None })
        }
    }
}

/// A series added by hand: title and relative path must not be blank (the
/// title is checked first), and the library id must read as a UUID. The
/// series takes the trimmed title and path, its id from the path, its other
/// titles as manual titles, a synopsis only when not blank, `Unknown` as
/// default status, a cover URL only when not empty, and is monitored unless
/// completed series are set to be unmonitored.
pub open spec fn manual_manga_ok(req: AddMangaManualRequest, auto_unmonitor: bool, m: ManualManga) -> bool {
    let status = match req.publishing_status { Some(s) => s, None => PublishingStatus::Unknown };
    &&& m.id == uuid_v5(MANGA_NAMESPACE, trim_seq(req.relative_path@))
    &&& uuid_parsed(req.library_id@) == Some(m.library_id)
    &&& m.title@ == trim_seq(req.title@)
    &&& match req.other_titles {
        Some(ts) => m.other_titles matches Some(v) && synonym_views(v@) == manual_synonyms(ts@.map_values(|t: String| t@)),
        None => m.other_titles is None,
    }
    &&& opt_view(m.synopsis) == match req.synopsis {
        Some(s) => if trim_seq(s@).len() > 0 { Some(trim_seq(s@)) } else { None },
        None => None,
    }
    &&& m.publishing_status == status
    &&& m.tags@ == match req.tags { Some(t) => t@, None => Seq::empty() }
    &&& m.start_year == req.start_year
    &&& m.end_year == req.end_year
    &&& m.relative_path@ == trim_seq(req.relative_path@)
    &&& opt_view(m.thumbnail_url) == match req.cover_url {
        Some(u) => if u@.len() > 0 { Some(u@) } else { None },
        None => None,
    }
    &&& m.monitored == monitored_spec(auto_unmonitor, status)
}

/// Builds a series added by hand, or the request's error.
pub fn plan_manual_manga(req: &AddMangaManualRequest, auto_unmonitor_completed: bool) -> (r: Result<ManualManga, ApiFailure>)
    ensures
        trim_seq(req.title@).len() == 0 ==> (r matches Err(f) && is_failure(f, ApiStatus::BadRequest, "title cannot be empty"@)),
        trim_seq(req.title@).len() > 0 && trim_seq(req.relative_path@).len() == 0 ==>
            (r matches Err(f) && is_failure(f, ApiStatus::BadRequest, "relative_path cannot be empty"@)),
        trim_seq(req.title@).len() > 0 && trim_seq(req.relative_path@).len() > 0 && uuid_parsed(req.library_id@) is None ==>
            (r matches Err(f) && is_failure(f, ApiStatus::BadRequest, "invalid library_id UUID"@)),
        trim_seq(req.title@).len() > 0 && trim_seq(req.relative_path@).len() > 0 && uuid_parsed(req.library_id@) is Some ==>
            (r matches Ok(m) && manual_manga_ok(*req, auto_unmonitor_completed, m)),
{
    let title = trim(req.title.as_str());
    if title.as_str().unicode_len() == 0 {
        return Err(bad_request("title cannot be empty"));
    }
    let path = trim(req.relative_path.as_str());
    if path.as_str().unicode_len() == 0 {
        return Err(bad_request("relative_path cannot be empty"));
    }
    let library_id = match parse_uuid(req.library_id.as_str()) {
        Some(id) => id,
        None => return Err(bad_request("invalid library_id UUID")),
    };
    let other_titles = match &req.other_titles {
        Some(ts) => {
            let ghost tv = ts@.map_values(|t: String| t@);
            let mut v: Vec<Synonym> = Vec::new();
            let mut i: usize = 0;
            while i < ts.len()
                invariant
                    i <= ts@.len(),
                    tv == ts@.map_values(|t: String| t@),
                    synonym_views(v@) == manual_synonyms(tv.take(i as int)),
                decreases ts.len() - i,
            {
                proof {
                    assert(tv.take(i + 1).drop_last() =~= tv.take(i as int));
                }
                let t = trim(ts[i].as_str());
                if t.as_str().unicode_len() > 0 {
                    let ghost prev = synonym_views(v@);
                    v.push(Synonym { title: t, source: SynonymSource::Manual, hidden: false, filter_reason: None });
                    assert(synonym_views(v@) =~= prev.push(SynonymView { title: t@, source: SynonymSource::Manual, hidden: false, filter_reason: None }));
                }
                i = i + 1;
            }
            assert(tv.take(tv.len() as int) =~= tv);
            Some(v)
        },
        None => None,
    };
    let synopsis = match &req.synopsis {
        Some(s) => {
            let t = trim(s.as_str());
            if t.as_str().unicode_len() > 0 { Some(t) } else { None }
        },
        None => None,
    };
    let status = match req.publishing_status {
        Some(s) => s,
        None => PublishingStatus::Unknown,
    };
    let tags = match &req.tags {
        Some(t) => clone_strings(t),
        None => Vec::new(),
    };
    let thumbnail_url = match &req.cover_url {
        Some(u) => if u.as_str().unicode_len() > 0 { Some(u.clone()) } else { None },
        None => None,
    };
    let id = manual_manga_uuid(path.as_str());
    Ok(ManualManga {
        id,
        library_id,
        title,
        other_titles,
        synopsis,
        publishing_status: status,
        tags,
        start_year: req.start_year,
        end_year: req.end_year,
        relative_path: path,
        thumbnail_url,
        monitored: monitored_on_add(auto_unmonitor_completed, status),
    })
}

// ---------------------------------------------------------------------------
// Provider search titles
// ---------------------------------------------------------------------------

/// Whether a title is searched for a series: its main title, or a visible
/// alternative title that is not blank.
pub open spec fn search_title_of(title: Seq<char>, others: Seq<Synonym>, x: Seq<char>) -> bool {
    x == title || exists|i: int| 0 <= i < others.len() && !others[i].hidden && trim_seq(others[i].title@).len() > 0
        && #[trigger] others[i].title@ == x
}

/// The views of strings.
pub open spec fn views_of_strings(v: Seq<String>) -> Seq<Seq<char>> {
    crate::text::views_of(v)
}

/// `str` order.
fn string_lt(a: &str, b: &str) -> (r: bool)
    ensures
        r == seq_lt(a@, b@),
{
    let ac = chars_of(a);
    let bc = chars_of(b);
    str_lt(ac.as_slice(), bc.as_slice())
}

/// Inserts `t` into a strictly sorted list unless it is there.
fn insert_sorted_unique(out: &mut Vec<String>, t: String)
    requires
        strictly_sorted(crate::text::views_of(old(out)@)),
    ensures
        strictly_sorted(crate::text::views_of(final(out)@)),
        forall|x: Seq<char>| crate::text::views_of(final(out)@).contains(x) <==> (crate::text::views_of(old(out)@).contains(x) || x == t@),
{
    let ghost ov = views_of_strings(out@);
    let mut p: usize = 0;
    while p < out.len() && string_lt(out[p].as_str(), t.as_str())
        invariant
            p <= out@.len(),
            ov == views_of_strings(out@),
            forall|k: int| 0 <= k < p ==> seq_lt(#[trigger] ov[k], t@),
        decreases out.len() - p,
    {
        proof {
            assert(ov[p as int] == out@[p as int]@);
        }
        p += 1;
    }
    let dup = p < out.len() && !string_lt(t.as_str(), out[p].as_str());
    proof {
        if p < ov.len() {
            assert(ov[p as int] == out@[p as int]@);
            lemma_seq_lt_trichotomy(ov[p as int], t@);
        }
    }
    if dup {
        proof {
            assert(ov[p as int] == t@);
            assert forall|x: Seq<char>| crate::text::views_of(out@).contains(x) <==> (ov.contains(x) || x == t@) by {
                if x == t@ {
                    assert(ov[p as int] == x);
                }
            }
        }
        return;
    }
    proof {
        if p < ov.len() {
            assert(seq_lt(t@, ov[p as int]));
        }
    }
    out.insert(p, t);
    let ghost nv = crate::text::views_of(out@);
    proof {
        assert(nv =~= ov.insert(p as int, t@));
        assert forall|a: int, b: int| 0 <= a < b < nv.len() implies seq_lt(#[trigger] nv[a], #[trigger] nv[b]) by {
            if b < p {
                assert(nv[a] == ov[a] && nv[b] == ov[b]);
            } else if b == p {
                assert(nv[a] == ov[a]);
            } else if a == p {
                assert(nv[b] == ov[b - 1]);
                if b - 1 > p {
                    lemma_seq_lt_transitive(t@, ov[p as int], ov[b - 1]);
                }
            } else if a < p {
                assert(nv[a] == ov[a] && nv[b] == ov[b - 1]);
                lemma_seq_lt_transitive(ov[a], t@, ov[p as int]);
                if b - 1 > p {
                    lemma_seq_lt_transitive(ov[a], ov[p as int], ov[b - 1]);
                }
            } else {
                assert(nv[a] == ov[a - 1] && nv[b] == ov[b - 1]);
            }
        }
        assert forall|x: Seq<char>| nv.contains(x) <==> (ov.contains(x) || x == t@) by {
            if nv.contains(x) {
                let m = choose|m: int| 0 <= m < nv.len() && nv[m] == x;
                if m < p {
                    assert(ov[m] == x);
                } else if m > p {
                    assert(ov[m - 1] == x);
                }
            }
            if ov.contains(x) {
                let m = choose|m: int| 0 <= m < ov.len() && ov[m] == x;
                if m < p {
                    assert(nv[m] == x);
                } else {
                    assert(nv[m + 1] == x);
                }
            }
            if x == t@ {
                assert(nv[p as int] == x);
            }
        }
    }
}

/// The titles a provider is searched with for a series: its main title and
/// its visible, non-blank alternative titles, sorted, each once.
pub fn provider_search_titles(title: &str, other_titles: &Option<Vec<Synonym>>) -> (r: Vec<String>)
    ensures
        strictly_sorted(crate::text::views_of(r@)),
        forall|x: Seq<char>| crate::text::views_of(r@).contains(x) <==> search_title_of(
            title@,
            match *other_titles {
                Some(v) => v@,
                None => Seq::empty(),
            },
            x,
        ),
{
    let mut r: Vec<String> = Vec::new();
    proof {
        assert(crate::text::views_of(r@) =~= Seq::<Seq<char>>::empty());
    }
    insert_sorted_unique(&mut r, title.to_string());
    let ghost others = match other_titles {
        Some(v) => v@,
        None => Seq::<Synonym>::empty(),
    };
    match other_titles {
        Some(v) => {
            let mut i: usize = 0;
            while i < v.len()
                invariant
                    i <= v.len(),
                    others == v@,
                    strictly_sorted(crate::text::views_of(r@)),
                    forall|x: Seq<char>| crate::text::views_of(r@).contains(x) <==> (x == title@ || exists|k: int|
                        0 <= k < i && !others[k].hidden && trim_seq(others[k].title@).len() > 0 && #[trigger] others[k].title@ == x),
                decreases v.len() - i,
            {
                let syn = &v[i];
                let keep = !syn.hidden && trim(syn.title.as_str()).as_str().unicode_len() > 0;
                let ghost before = crate::text::views_of(r@);
                if keep {
                    insert_sorted_unique(&mut r, syn.title.clone());
                }
                proof {
                    assert forall|x: Seq<char>| crate::text::views_of(r@).contains(x) <==> (x == title@ || exists|k: int|
                        0 <= k < i + 1 && !others[k].hidden && trim_seq(others[k].title@).len() > 0 && #[trigger] others[k].title@ == x) by {
                        if exists|k: int| 0 <= k < i + 1 && !others[k].hidden && trim_seq(others[k].title@).len() > 0 && #[trigger] others[k].title@ == x {
                            let k = choose|k: int| 0 <= k < i + 1 && !others[k].hidden && trim_seq(others[k].title@).len() > 0 && #[trigger] others[k].title@ == x;
                            if k < i {
                                assert(before.contains(x));
                            }
                        }
                    }
                }
                i += 1;
            }
        },
        None => {},
    }
    r
}

} // verus!

