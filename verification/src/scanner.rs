//! The decisions of a disk scan: which files in a series folder are chapters,
//! what a chapter found on disk is identified by and recorded as (every file
//! found is a Downloaded chapter), and what happens to chapters recorded as
//! downloaded whose files are gone.

use vstd::prelude::*;
use crate::chapter_store::{row_view, RowView, StoredChapter};
use crate::ids::{chapter_key, chapter_key_text, chapter_uuid, contains_id, uuid_v5, CHAPTER_NAMESPACE};
use crate::text::{
    chars_of, ends_with, ends_with_spec, eq_ignore_ascii_case, eq_ignore_ascii_case_spec, is_whitespace,
    is_ws, starts_with, starts_with_spec, string_of, text_or_empty, clone_opt, opt_view,
};

verus! {

// ---------------------------------------------------------------------------
// Chapter files
// ---------------------------------------------------------------------------

/// The first whitespace-separated word of a text, or nothing.
pub open spec fn first_word(s: Seq<char>) -> Seq<char>
    decreases s.len(),
{
    if s.len() == 0 {
        s
    } else if is_ws(s[0]) {
        first_word(s.drop_first())
    } else {
        word_prefix(s)
    }
}

/// The characters before the first whitespace.
pub open spec fn word_prefix(s: Seq<char>) -> Seq<char>
    decreases s.len(),
{
    if s.len() == 0 || is_ws(s[0]) {
        Seq::empty()
    } else {
        seq![s[0]] + word_prefix(s.drop_first())
    }
}

/// The number word of a chapter file name "Chapter {number}[ - title [group]].cbz";
/// `None` for other names. The word may still fail to read as a number.
pub open spec fn number_word_spec(name: Seq<char>) -> Option<Seq<char>> {
    if ends_with_spec(name, ".cbz"@) && starts_with_spec(name, "Chapter "@) {
        Some(first_word(name.subrange(8, name.len() - 4)))
    } else {
        None
    }
}

/// The number word of a chapter file name, as the downloader names files.
pub fn chapter_number_word(name: &str) -> (r: Option<String>)
    ensures
        match r {
            Some(w) => number_word_spec(name@) == Some(w@),
            None => number_word_spec(name@) is None,
        },
{
    proof {
        reveal_strlit(".cbz");
        reveal_strlit("Chapter ");
    }
    if !(ends_with(name, ".cbz") && starts_with(name, "Chapter ")) {
        return None;
    }
    let cs = chars_of(name);
    let end = cs.len() - 4;
    assert(cs@.len() >= 8);
    // A name that ends with ".cbz" and starts with "Chapter " has both apart.
    if end < 8 {
        proof {
            let nm = name@;
            assert(nm.subrange(0, 8) == "Chapter "@);
            assert(nm.subrange(nm.len() - 4, nm.len() as int) == ".cbz"@);
            assert(nm.subrange(nm.len() - 4, nm.len() as int)[0] == nm[end as int]);
            assert(nm.subrange(0, 8)[end as int] == nm[end as int]);
            assert(forall|j: int| 0 <= j < 8 ==> "Chapter "@[j] != '.');
        }
        return None;
    }
    let ghost body = cs@.subrange(8, end as int);
    let mut i: usize = 8;
    while i < end && is_whitespace(cs[i])
        invariant
            8 <= i <= end,
            end <= cs@.len(),
            first_word(body) == first_word(cs@.subrange(i as int, end as int)),
        decreases end - i,
    {
        proof {
            assert(cs@.subrange(i as int, end as int).drop_first() =~= cs@.subrange(i + 1, end as int));
        }
        i = i + 1;
    }
    let start = i;
    while i < end && !is_whitespace(cs[i])
        invariant
            8 <= start <= i <= end,
            end <= cs@.len(),
            first_word(body) == cs@.subrange(start as int, i as int) + word_prefix(cs@.subrange(i as int, end as int)),
        decreases end - i,
    {
        proof {
            assert(cs@.subrange(i as int, end as int).drop_first() =~= cs@.subrange(i + 1, end as int));
            assert(cs@.subrange(start as int, i + 1) =~= cs@.subrange(start as int, i as int) + seq![cs@[i as int]]);
        }
        i = i + 1;
    }
    proof {
        if start == end {
            assert(cs@.subrange(start as int, end as int) =~= Seq::<char>::empty());
        } else {
            assert(word_prefix(cs@.subrange(start as int, end as int)) == cs@.subrange(start as int, start as int) + word_prefix(cs@.subrange(start as int, end as int)));
        }
        assert(word_prefix(cs@.subrange(i as int, end as int)) =~= Seq::<char>::empty());
        assert(first_word(body) =~= cs@.subrange(start as int, i as int));
    }
    let mut w: Vec<char> = Vec::new();
    let mut k = start;
    while k < i
        invariant
            start <= k <= i,
            i <= cs@.len(),
            w@ == cs@.subrange(start as int, k as int),
        decreases i - k,
    {
        w.push(cs[k]);
        k = k + 1;
        assert(w@ =~= cs@.subrange(start as int, k as int));
    }
    Some(string_of(w.as_slice()))
}

// ---------------------------------------------------------------------------
// Identity of a chapter found on disk
// ---------------------------------------------------------------------------

/// Days from 1 January 1970 to 1 January of `y`, proleptic Gregorian.
pub open spec fn leap_years_through(n: int) -> int {
    n / 4 - n / 100 + n / 400
}

pub open spec fn days_before_year(y: int) -> int {
    365 * (y - 1970) + leap_years_through(y - 1) - leap_years_through(1969)
}

/// Earliest and latest years that dates can hold.
pub const MIN_YEAR: i32 = -262_143;
pub const MAX_YEAR: i32 = 262_142;

/// The Unix time of midnight, 1 January of a year, in UTC, where dates can
/// hold the year.
pub open spec fn year_start_spec(y: i32) -> Option<i64> {
    if MIN_YEAR <= y <= MAX_YEAR {
        Some((86_400 * days_before_year(y as int)) as i64)
    } else {
        None
    }
}

/// The Unix time of midnight, 1 January of a year (UTC), or `None` for a year
/// that dates cannot hold.
pub fn year_start_timestamp(y: i32) -> (r: Option<i64>)
    ensures
        r == year_start_spec(y),
{
    if y < MIN_YEAR || y > MAX_YEAR {
        return None;
    }
    // Shifted by whole 400-year cycles so that the divisions are of a
    // non-negative number.
    let m: u64 = (y as i64 - 1 + 400_000) as u64;
    let ghost n: int = y as int - 1;
    proof {
        lemma_shifted_div(n, 4, 100_000);
        lemma_shifted_div(n, 100, 4_000);
        lemma_shifted_div(n, 400, 1_000);
    }
    let l: i64 = (m / 4) as i64 - 100_000 - ((m / 100) as i64 - 4_000) + ((m / 400) as i64 - 1_000);
    assert(l == leap_years_through(n));
    assert(leap_years_through(1969) == 477);
    let days: i64 = 365 * (y as i64 - 1970) + l - 477;
    Some(86_400 * days)
}

proof fn lemma_shifted_div(n: int, b: int, k: int)
    requires
        b > 0,
        n + b * k >= 0,
    ensures
        (n + b * k) / b - k == n / b,
{
    assert((n + b * k) / b == n / b + k) by (nonlinear_arith)
        requires b > 0;
}

/// What a chapter file's ComicInfo says of its identity.
#[derive(Debug)]
pub struct ScannedComicInfo {
    pub chapter_uuid: Option<u128>,
    pub chapter_title: Option<String>,
    pub language: Option<String>,
    pub scanlator: Option<String>,
    pub provider_name: Option<String>,
    pub chapter_url: Option<String>,
    /// Unix times in seconds.
    pub released_at: Option<i64>,
    pub downloaded_at: Option<i64>,
    pub scraped_at: Option<i64>,
    pub release_year: Option<i32>,
}

/// First and last second (Unix time) that dates can hold: midnight, 1 January
/// of the earliest year, to the last second of the latest year.
pub const FIRST_TIMESTAMP: i64 = -8_334_601_228_800;
pub const END_TIMESTAMP: i64 = 8_210_266_876_800;

/// A stored time, where dates can hold it (a time out of that range reads as
/// none, as `DateTime::from_timestamp` gives none).
pub open spec fn held_time(t: Option<i64>) -> Option<i64> {
    match t {
        Some(x) => if FIRST_TIMESTAMP <= x < END_TIMESTAMP { Some(x) } else { None },
        None => None,
    }
}

pub fn checked_time(t: Option<i64>) -> (r: Option<i64>)
    ensures
        r == held_time(t),
{
    match t {
        Some(x) => if FIRST_TIMESTAMP <= x && x < END_TIMESTAMP { Some(x) } else { None },
        None => None,
    }
}

/// The held range is that of the years dates can hold.
pub proof fn lemma_held_range_is_years()
    ensures
        FIRST_TIMESTAMP == 86_400 * days_before_year(MIN_YEAR as int),
        END_TIMESTAMP == 86_400 * days_before_year(MAX_YEAR as int + 1),
{
}

/// The identity of a chapter file that has ComicInfo: its language ("EN"
/// when none is given) and its id (the stored one, or the id of its key).
pub open spec fn scanned_id_spec(
    manga_id: u128,
    chapter_base: i32,
    chapter_variant: i32,
    ci: ScannedComicInfo,
) -> (Seq<char>, u128) {
    let language = match ci.language { Some(l) => l@, None => "EN"@ };
    let id = match ci.chapter_uuid {
        Some(u) => u,
        None => uuid_v5(CHAPTER_NAMESPACE, chapter_key_of(manga_id, chapter_base, chapter_variant, language, ci.scanlator, ci.provider_name)),
    };
    (language, id)
}

/// `chapter_key` over owned texts.
pub open spec fn chapter_key_of(
    manga_id: u128,
    chapter_base: i32,
    chapter_variant: i32,
    language: Seq<char>,
    group: Option<String>,
    provider: Option<String>,
) -> Seq<char> {
    chapter_key_text(manga_id, chapter_base, chapter_variant, language, text_or_empty(group), text_or_empty(provider))
}

/// The language and id of a chapter file that has ComicInfo.
pub fn scanned_chapter_identity(manga_id: u128, chapter_base: i32, chapter_variant: i32, ci: &ScannedComicInfo)
    -> (r: (String, u128))
    ensures
        (r.0@, r.1) == scanned_id_spec(manga_id, chapter_base, chapter_variant, *ci),
{
    let language = match &ci.language {
        Some(l) => l.clone(),
        None => string_of(chars_of("EN").as_slice()),
    };
    let id = match ci.chapter_uuid {
        Some(u) => u,
        None => {
            let g = match &ci.scanlator {
                Some(g) => Some(g.as_str()),
                None => None,
            };
            let p = match &ci.provider_name {
                Some(p) => Some(p.as_str()),
                None => None,
            };
            let id = chapter_uuid(manga_id, chapter_base, chapter_variant, language.as_str(), g, p);
            proof {
                assert(chapter_key(manga_id, chapter_base, chapter_variant, language@, g, p)
                    =~= chapter_key_of(manga_id, chapter_base, chapter_variant, language@, ci.scanlator, ci.provider_name));
            }
            id
        },
    };
    (language, id)
}

/// The release time of a chapter file that has ComicInfo: the stored time;
/// failing that, 1 January of its year, but only for files written before
/// chapter ids were stored (a stored id with no time means none was known).
pub open spec fn scanned_release_spec(ci: ScannedComicInfo) -> Option<i64> {
    match held_time(ci.released_at) {
        Some(t) => Some(t),
        None => if ci.chapter_uuid is Some {
            None
        } else {
            match ci.release_year {
                Some(y) => year_start_spec(y),
                None => None,
            }
        },
    }
}

pub fn scanned_release_time(ci: &ScannedComicInfo) -> (r: Option<i64>)
    ensures
        r == scanned_release_spec(*ci),
{
    match checked_time(ci.released_at) {
        Some(t) => Some(t),
        None => {
            if ci.chapter_uuid.is_some() {
                None
            } else {
                match ci.release_year {
                    Some(y) => year_start_timestamp(y),
                    None => None,
                }
            }
        },
    }
}

/// The id of a chapter file with neither ComicInfo nor a canonical chapter of
/// its number: an English chapter with no group and no provider.
pub fn placeholder_chapter_id(manga_id: u128, chapter_base: i32, chapter_variant: i32) -> (r: u128)
    ensures
        r == uuid_v5(CHAPTER_NAMESPACE, chapter_key(manga_id, chapter_base, chapter_variant, "EN"@, None, None)),
{
    chapter_uuid(manga_id, chapter_base, chapter_variant, "EN", None, None)
}

// ---------------------------------------------------------------------------
// Chapters whose files are gone
// ---------------------------------------------------------------------------

/// What happens to a chapter recorded as downloaded whose file is gone.
#[derive(Debug, Clone, Copy, PartialEq, Eq, Structural)]
pub enum MissingFileAction {
    /// A local chapter, which no provider brings back: delete it.
    Delete,
    /// A provider's chapter: mark it missing; the next scan finds it again.
    MarkMissing,
}

/// Local chapters are those with no provider or the provider "local" (any case).
pub open spec fn missing_action_spec(provider: Option<Seq<char>>) -> MissingFileAction {
    match provider {
        None => MissingFileAction::Delete,
        Some(p) => if eq_ignore_ascii_case_spec(p, "local"@) { MissingFileAction::Delete } else { MissingFileAction::MarkMissing },
    }
}

pub fn missing_file_action(provider: Option<&str>) -> (r: MissingFileAction)
    ensures
        r == missing_action_spec(match provider { Some(p) => Some(p@), None => None }),
{
    match provider {
        None => MissingFileAction::Delete,
        Some(p) => if eq_ignore_ascii_case(p, "local") { MissingFileAction::Delete } else { MissingFileAction::MarkMissing },
    }
}

/// A chapter recorded as downloaded: its id and provider.
#[derive(Debug)]
pub struct DownloadedChapter {
    pub id: u128,
    pub provider_name: Option<String>,
}

pub open spec fn provider_view(c: DownloadedChapter) -> Option<Seq<char>> {
    match c.provider_name {
        Some(p) => Some(p@),
        None => None,
    }
}

/// The chapters recorded as downloaded whose ids the scan did not find, in
/// their order, each with what happens to it.
pub open spec fn cleanup_spec(downloaded: Seq<DownloadedChapter>, found: Seq<u128>) -> Seq<(u128, MissingFileAction)>
    decreases downloaded.len(),
{
    if downloaded.len() == 0 {
        Seq::empty()
    } else {
        let rest = cleanup_spec(downloaded.drop_last(), found);
        let c = downloaded.last();
        if found.contains(c.id) {
            rest
        } else {
            rest.push((c.id, missing_action_spec(provider_view(c))))
        }
    }
}

/// What to do with every chapter recorded as downloaded that the scan did not find.
pub fn missing_chapter_actions(downloaded: &Vec<DownloadedChapter>, found: &Vec<u128>)
    -> (r: Vec<(u128, MissingFileAction)>)
    ensures
        r@ == cleanup_spec(downloaded@, found@),
{
    let mut out: Vec<(u128, MissingFileAction)> = Vec::new();
    let mut i: usize = 0;
    while i < downloaded.len()
        invariant
            i <= downloaded@.len(),
            out@ == cleanup_spec(downloaded@.take(i as int), found@),
        decreases downloaded.len() - i,
    {
        let c = &downloaded[i];
        proof {
            assert(downloaded@.take(i + 1).drop_last() =~= downloaded@.take(i as int));
        }
        if !contains_id(found, c.id) {
            let p = match &c.provider_name {
                Some(p) => Some(p.as_str()),
                None => None,
            };
            let a = missing_file_action(p);
            out.push((c.id, a));
        }
        i = i + 1;
    }
    assert(downloaded@.take(downloaded@.len() as int) =~= downloaded@);
    out
}

// ---------------------------------------------------------------------------
// The plan of a disk scan
// ---------------------------------------------------------------------------

/// A chapter file found in the series folder: its number, its ComicInfo when
/// it has one, and the file's modification time (a time dates can hold) and size.
#[derive(Debug)]
pub struct ScannedFile {
    pub chapter_base: i32,
    pub chapter_variant: i32,
    pub comic_info: Option<ScannedComicInfo>,
    pub modified_at: Option<i64>,
    pub file_size: Option<i64>,
}

/// What the scan does for one file.
#[derive(Debug)]
pub enum DiskStep {
    /// Store the chapter its ComicInfo describes, unless a row with its id
    /// exists, then mark that id Downloaded at the row's download time and
    /// give it the file's size (when known).
    InsertDownloaded(StoredChapter),
    /// The file has no ComicInfo but the series has a canonical chapter of its
    /// number: mark that chapter Downloaded at the file's time when it is not
    /// already (`mark`), and give it the file's size (when known).
    MarkDownloaded { id: u128, mark: bool, downloaded_at: Option<i64>, file_size: Option<i64> },
    /// No ComicInfo and no canonical chapter: store a placeholder chapter, Downloaded.
    InsertPlaceholder(StoredChapter),
}

/// A step as specifications see it.
pub enum DiskStepView {
    InsertDownloaded(RowView),
    MarkDownloaded { id: u128, mark: bool, downloaded_at: Option<i64>, file_size: Option<i64> },
    InsertPlaceholder(RowView),
}

pub open spec fn step_view(s: DiskStep) -> DiskStepView {
    match s {
        DiskStep::InsertDownloaded(c) => DiskStepView::InsertDownloaded(row_view(c)),
        DiskStep::MarkDownloaded { id, mark, downloaded_at, file_size } => DiskStepView::MarkDownloaded { id, mark, downloaded_at, file_size },
        DiskStep::InsertPlaceholder(c) => DiskStepView::InsertPlaceholder(row_view(c)),
    }
}

/// The id a step is about.
pub open spec fn step_id(s: DiskStepView) -> u128 {
    match s {
        DiskStepView::InsertDownloaded(r) => r.id,
        DiskStepView::MarkDownloaded { id, .. } => id,
        DiskStepView::InsertPlaceholder(r) => r.id,
    }
}

/// The chapter a file's ComicInfo describes: its number from the file name,
/// its identity, title, group, provider and link from ComicInfo, Downloaded,
/// released as `scanned_release_spec` says, downloaded at the stored time or
/// else the file's, scraped at the stored time, with the file's size.
pub open spec fn comicinfo_row(manga_id: u128, f: ScannedFile, ci: ScannedComicInfo) -> RowView {
    let (language, id) = scanned_id_spec(manga_id, f.chapter_base, f.chapter_variant, ci);
    RowView {
        id,
        manga_id,
        chapter_base: f.chapter_base,
        chapter_variant: f.chapter_variant,
        is_extra: false,
        title: opt_view(ci.chapter_title),
        language,
        scanlator_group: opt_view(ci.scanlator),
        provider_name: opt_view(ci.provider_name),
        chapter_url: opt_view(ci.chapter_url),
        download_status: "Downloaded"@,
        released_at: scanned_release_spec(ci),
        downloaded_at: match held_time(ci.downloaded_at) {
            Some(t) => Some(t),
            None => f.modified_at,
        },
        scraped_at: held_time(ci.scraped_at),
        file_size_bytes: f.file_size,
    }
}

/// The placeholder for a file with neither ComicInfo nor a canonical chapter:
/// English, no group, title, provider or link, Downloaded at the file's time.
pub open spec fn placeholder_row(manga_id: u128, f: ScannedFile) -> RowView {
    RowView {
        id: uuid_v5(CHAPTER_NAMESPACE, chapter_key(manga_id, f.chapter_base, f.chapter_variant, "EN"@, None, None)),
        manga_id,
        chapter_base: f.chapter_base,
        chapter_variant: f.chapter_variant,
        is_extra: false,
        title: None,
        language: "EN"@,
        scanlator_group: None,
        provider_name: None,
        chapter_url: None,
        download_status: "Downloaded"@,
        released_at: None,
        downloaded_at: f.modified_at,
        scraped_at: None,
        file_size_bytes: f.file_size,
    }
}

/// Position of the first canonical chapter of the number, from `k` on. A
/// canonical chapter is given as (base, variant, id, downloaded).
pub open spec fn canonical_index(canonical: Seq<(i32, i32, u128, bool)>, base: i32, variant: i32, k: int) -> Option<int>
    decreases canonical.len() - k,
{
    if k < 0 || k >= canonical.len() {
        None
    } else if canonical[k].0 == base && canonical[k].1 == variant {
        Some(k)
    } else {
        canonical_index(canonical, base, variant, k + 1)
    }
}

/// What the scan does for one file.
pub open spec fn step_for(manga_id: u128, f: ScannedFile, canonical: Seq<(i32, i32, u128, bool)>) -> DiskStepView {
    match f.comic_info {
        Some(ci) => DiskStepView::InsertDownloaded(comicinfo_row(manga_id, f, ci)),
        None => match canonical_index(canonical, f.chapter_base, f.chapter_variant, 0) {
            Some(k) => DiskStepView::MarkDownloaded {
                id: canonical[k].2,
                mark: !canonical[k].3,
                downloaded_at: f.modified_at,
                file_size: f.file_size,
            },
            None => DiskStepView::InsertPlaceholder(placeholder_row(manga_id, f)),
        },
    }
}

/// The plan of a disk scan: one step per file, in order; the ids found on
/// disk (that of every step, in order); and what happens to each chapter
/// recorded as downloaded that was not found.
#[derive(Debug)]
pub struct DiskScanPlan {
    pub steps: Vec<DiskStep>,
    pub found: Vec<u128>,
    pub cleanup: Vec<(u128, MissingFileAction)>,
}

proof fn lemma_canonical_index_skip(c: Seq<(i32, i32, u128, bool)>, base: i32, variant: i32, k: int)
    requires
        0 <= k <= c.len(),
        forall|j: int| 0 <= j < k ==> !(c[j].0 == base && c[j].1 == variant),
    ensures
        canonical_index(c, base, variant, 0) == canonical_index(c, base, variant, k),
    decreases k,
{
    if k > 0 {
        lemma_canonical_index_skip(c, base, variant, k - 1);
    }
}

fn find_canonical(canonical: &Vec<(i32, i32, u128, bool)>, base: i32, variant: i32) -> (r: Option<usize>)
    ensures
        match r {
            Some(k) => k < canonical@.len() && canonical_index(canonical@, base, variant, 0) == Some(k as int),
            None => canonical_index(canonical@, base, variant, 0) is None,
        },
{
    let mut k: usize = 0;
    while k < canonical.len()
        invariant
            k <= canonical@.len(),
            forall|j: int| 0 <= j < k ==> !(canonical@[j].0 == base && canonical@[j].1 == variant),
        decreases canonical.len() - k,
    {
        let c = canonical[k];
        if c.0 == base && c.1 == variant {
            proof {
                lemma_canonical_index_skip(canonical@, base, variant, k as int);
            }
            return Some(k);
        }
        k = k + 1;
    }
    proof {
        lemma_canonical_index_skip(canonical@, base, variant, k as int);
    }
    None
}

fn plan_file(manga_id: u128, f: &ScannedFile, canonical: &Vec<(i32, i32, u128, bool)>) -> (s: DiskStep)
    ensures
        step_view(s) == step_for(manga_id, *f, canonical@),
{
    match &f.comic_info {
        Some(ci) => {
            let (language, id) = scanned_chapter_identity(manga_id, f.chapter_base, f.chapter_variant, ci);
            let downloaded_at = match checked_time(ci.downloaded_at) {
                Some(t) => Some(t),
                None => f.modified_at,
            };
            let c = StoredChapter {
                id,
                manga_id,
                chapter_base: f.chapter_base,
                chapter_variant: f.chapter_variant,
                is_extra: false,
                title: clone_opt(&ci.chapter_title),
                language,
                scanlator_group: clone_opt(&ci.scanlator),
                provider_name: clone_opt(&ci.provider_name),
                chapter_url: clone_opt(&ci.chapter_url),
                download_status: "Downloaded".to_owned(),
                released_at: scanned_release_time(ci),
                downloaded_at,
                scraped_at: checked_time(ci.scraped_at),
                file_size_bytes: f.file_size,
            };
            DiskStep::InsertDownloaded(c)
        },
        None => match find_canonical(canonical, f.chapter_base, f.chapter_variant) {
            Some(k) => {
                let c = canonical[k];
                DiskStep::MarkDownloaded { id: c.2, mark: !c.3, downloaded_at: f.modified_at, file_size: f.file_size }
            },
            None => {
                let id = placeholder_chapter_id(manga_id, f.chapter_base, f.chapter_variant);
                let c = StoredChapter {
                    id,
                    manga_id,
                    chapter_base: f.chapter_base,
                    chapter_variant: f.chapter_variant,
                    is_extra: false,
                    title: None,
                    language: "EN".to_owned(),
                    scanlator_group: None,
                    provider_name: None,
                    chapter_url: None,
                    download_status: "Downloaded".to_owned(),
                    released_at: None,
                    downloaded_at: f.modified_at,
                    scraped_at: None,
                    file_size_bytes: f.file_size,
                };
                DiskStep::InsertPlaceholder(c)
            },
        },
    }
}

/// Plans the scan of a series folder: for each chapter file, in order, the
/// step `step_for` gives; every id those steps are about counts as found on
/// disk (whichever step found it); and each chapter recorded as downloaded
/// that was not found is deleted (a local one) or marked missing.
pub fn plan_disk_scan(
    manga_id: u128,
    files: &Vec<ScannedFile>,
    canonical: &Vec<(i32, i32, u128, bool)>,
    downloaded: &Vec<DownloadedChapter>,
) -> (r: DiskScanPlan)
    ensures
        r.steps@.len() == files@.len(),
        forall|i: int| 0 <= i < files@.len() ==> step_view(#[trigger] r.steps@[i]) == step_for(manga_id, files@[i], canonical@),
        r.found@.len() == files@.len(),
        forall|i: int| 0 <= i < files@.len() ==> #[trigger] r.found@[i] == step_id(step_for(manga_id, files@[i], canonical@)),
        r.cleanup@ == cleanup_spec(downloaded@, r.found@),
{
    let mut steps: Vec<DiskStep> = Vec::new();
    let mut found: Vec<u128> = Vec::new();
    let mut i: usize = 0;
    while i < files.len()
        invariant
            i <= files@.len(),
            steps@.len() == i,
            found@.len() == i,
            forall|j: int| 0 <= j < i ==> step_view(#[trigger] steps@[j]) == step_for(manga_id, files@[j], canonical@),
            forall|j: int| 0 <= j < i ==> #[trigger] found@[j] == step_id(step_for(manga_id, files@[j], canonical@)),
        decreases files.len() - i,
    {
        let s = plan_file(manga_id, &files[i], canonical);
        let id = match &s {
            DiskStep::InsertDownloaded(c) => c.id,
            DiskStep::MarkDownloaded { id, .. } => *id,
            DiskStep::InsertPlaceholder(c) => c.id,
        };
        steps.push(s);
        found.push(id);
        i = i + 1;
    }
    let cleanup = missing_chapter_actions(downloaded, &found);
    DiskScanPlan { steps, found, cleanup }
}

/// A chapter found on disk is never swept: the cleanup holds only chapters
/// recorded as downloaded whose ids the scan did not find.
pub proof fn law_found_chapters_stay_downloaded(downloaded: Seq<DownloadedChapter>, found: Seq<u128>)
    ensures
        forall|k: int| 0 <= k < cleanup_spec(downloaded, found).len() ==> !found.contains(
            #[trigger] cleanup_spec(downloaded, found)[k].0,
        ),
        forall|k: int| 0 <= k < cleanup_spec(downloaded, found).len() ==> exists|j: int|
            0 <= j < downloaded.len() && downloaded[j].id == #[trigger] cleanup_spec(downloaded, found)[k].0,
    decreases downloaded.len(),
{
    if downloaded.len() > 0 {
        let d = downloaded.drop_last();
        law_found_chapters_stay_downloaded(d, found);
        let c = cleanup_spec(downloaded, found);
        let rest = cleanup_spec(d, found);
        assert forall|k: int| 0 <= k < c.len() implies exists|j: int|
            0 <= j < downloaded.len() && downloaded[j].id == #[trigger] c[k].0 by {
            if k < rest.len() {
                assert(c[k] == rest[k]);
                let j = choose|j: int| 0 <= j < d.len() && d[j].id == #[trigger] rest[k].0;
                assert(downloaded[j] == d[j]);
            } else {
                assert(downloaded[downloaded.len() - 1] == downloaded.last());
            }
        }
        assert forall|k: int| 0 <= k < c.len() implies !found.contains(#[trigger] c[k].0) by {
            if k < rest.len() {
                assert(c[k] == rest[k]);
            }
        }
    }
}

} // verus!
