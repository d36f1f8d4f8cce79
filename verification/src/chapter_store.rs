//! The stored chapter rows of a series and how a provider's chapter listing is
//! merged into them: a chapter not seen before becomes a new row, still to be
//! downloaded; one seen before has its link and scrape time refreshed, and its
//! title and extra flag filled in where they were missing. Also the counters a
//! series keeps of its rows.

use vstd::prelude::*;
use crate::ids::{chapter_key_text, chapter_uuid, contains_id, or_empty, uuid_v5, CHAPTER_NAMESPACE};
use crate::text::{clone_opt, opt_view, str_eq, text_or_empty, to_uppercase, unicode_uppercase};

verus! {

/// A chapter as a provider's listing gives it.
#[derive(Debug)]
pub struct ScrapedChapter {
    pub chapter_base: i32,
    pub chapter_variant: i32,
    pub is_extra: bool,
    pub title: Option<String>,
    pub language: Option<String>,
    pub scanlator_group: Option<String>,
    pub url: Option<String>,
    /// Unix time in seconds.
    pub date_released: Option<i64>,
}

/// A stored chapter row.
#[derive(Debug)]
pub struct StoredChapter {
    pub id: u128,
    pub manga_id: u128,
    pub chapter_base: i32,
    pub chapter_variant: i32,
    pub is_extra: bool,
    pub title: Option<String>,
    pub language: String,
    pub scanlator_group: Option<String>,
    pub provider_name: Option<String>,
    pub chapter_url: Option<String>,
    pub download_status: String,
    /// Unix times in seconds.
    pub released_at: Option<i64>,
    pub downloaded_at: Option<i64>,
    pub scraped_at: Option<i64>,
    pub file_size_bytes: Option<i64>,
}

/// A stored row as specifications see it.
pub struct RowView {
    pub id: u128,
    pub manga_id: u128,
    pub chapter_base: i32,
    pub chapter_variant: i32,
    pub is_extra: bool,
    pub title: Option<Seq<char>>,
    pub language: Seq<char>,
    pub scanlator_group: Option<Seq<char>>,
    pub provider_name: Option<Seq<char>>,
    pub chapter_url: Option<Seq<char>>,
    pub download_status: Seq<char>,
    pub released_at: Option<i64>,
    pub downloaded_at: Option<i64>,
    pub scraped_at: Option<i64>,
    pub file_size_bytes: Option<i64>,
}

pub open spec fn row_view(r: StoredChapter) -> RowView {
    RowView {
        id: r.id,
        manga_id: r.manga_id,
        chapter_base: r.chapter_base,
        chapter_variant: r.chapter_variant,
        is_extra: r.is_extra,
        title: opt_view(r.title),
        language: r.language@,
        scanlator_group: opt_view(r.scanlator_group),
        provider_name: opt_view(r.provider_name),
        chapter_url: opt_view(r.chapter_url),
        download_status: r.download_status@,
        released_at: r.released_at,
        downloaded_at: r.downloaded_at,
        scraped_at: r.scraped_at,
        file_size_bytes: r.file_size_bytes,
    }
}

pub open spec fn rows_view(rows: Seq<StoredChapter>) -> Seq<RowView> {
    rows.map_values(|r: StoredChapter| row_view(r))
}

/// The language a scraped chapter is stored under: its own, or English, in
/// upper case.
pub open spec fn scrape_language(info: ScrapedChapter) -> Seq<char> {
    unicode_uppercase(
        match info.language {
            Some(l) => l@,
            None => "EN"@,
        },
    )
}

/// The id a scraped chapter is stored under: the chapter id of its key.
pub open spec fn scrape_id(manga_id: u128, provider: Seq<char>, info: ScrapedChapter) -> u128 {
    uuid_v5(
        CHAPTER_NAMESPACE,
        chapter_key_text(
            manga_id,
            info.chapter_base,
            info.chapter_variant,
            scrape_language(info),
            text_or_empty(info.scanlator_group),
            provider,
        ),
    )
}

/// The row has the key of the scraped chapter: same series, chapter, language,
/// group (an absent group stored as empty) and provider.
pub open spec fn same_key(r: RowView, manga_id: u128, provider: Seq<char>, info: ScrapedChapter) -> bool {
    &&& r.manga_id == manga_id
    &&& r.chapter_base == info.chapter_base
    &&& r.chapter_variant == info.chapter_variant
    &&& r.language == scrape_language(info)
    &&& r.scanlator_group == Some(text_or_empty(info.scanlator_group))
    &&& r.provider_name == Some(provider)
}

/// Position of the first row with the key of the scraped chapter, from `k` on.
pub open spec fn key_index_from(
    rows: Seq<RowView>,
    manga_id: u128,
    provider: Seq<char>,
    info: ScrapedChapter,
    k: int,
) -> Option<int>
    decreases rows.len() - k,
{
    if k < 0 || k >= rows.len() {
        None
    } else if same_key(rows[k], manga_id, provider, info) {
        Some(k)
    } else {
        key_index_from(rows, manga_id, provider, info, k + 1)
    }
}

/// A title that says something.
pub open spec fn has_title(t: Option<Seq<char>>) -> bool {
    t matches Some(s) && s.len() > 0
}

/// A known row scraped again: new link and scrape time; its title kept unless
/// empty; marked extra if either says so.
pub open spec fn refreshed(r: RowView, info: ScrapedChapter, now: i64) -> RowView {
    RowView {
        chapter_url: opt_view(info.url),
        scraped_at: Some(now),
        title: if has_title(r.title) {
            r.title
        } else {
            Some(text_or_empty(info.title))
        },
        is_extra: r.is_extra || info.is_extra,
        ..r
    }
}

/// The row a chapter not seen before becomes.
pub open spec fn new_row(manga_id: u128, provider: Seq<char>, info: ScrapedChapter, now: i64) -> RowView {
    RowView {
        id: scrape_id(manga_id, provider, info),
        manga_id,
        chapter_base: info.chapter_base,
        chapter_variant: info.chapter_variant,
        is_extra: info.is_extra,
        title: Some(text_or_empty(info.title)),
        language: scrape_language(info),
        scanlator_group: Some(text_or_empty(info.scanlator_group)),
        provider_name: Some(provider),
        chapter_url: opt_view(info.url),
        download_status: "Missing"@,
        released_at: info.date_released,
        downloaded_at: None,
        scraped_at: Some(now),
        file_size_bytes: None,
    }
}

/// Whether some row has the id.
pub open spec fn id_stored(rows: Seq<RowView>, id: u128) -> bool {
    exists|i: int| 0 <= i < rows.len() && rows[i].id == id
}

/// One scraped chapter merged into the rows.
pub open spec fn upsert_one(rows: Seq<RowView>, manga_id: u128, provider: Seq<char>, info: ScrapedChapter, now: i64) -> Seq<RowView> {
    match key_index_from(rows, manga_id, provider, info, 0) {
        Some(i) => rows.update(i, refreshed(rows[i], info, now)),
        None => rows.push(new_row(manga_id, provider, info, now)),
    }
}

/// The rows after merging the listing in order, and the ids reported new: those
/// of the scraped chapters whose id no row had just before their merge.
pub open spec fn upsert_all(
    rows: Seq<RowView>,
    manga_id: u128,
    provider: Seq<char>,
    infos: Seq<ScrapedChapter>,
    now: i64,
) -> (Seq<RowView>, Seq<u128>)
    decreases infos.len(),
{
    if infos.len() == 0 {
        (rows, Seq::empty())
    } else {
        let (r, fresh) = upsert_all(rows, manga_id, provider, infos.drop_last(), now);
        let info = infos.last();
        let id = scrape_id(manga_id, provider, info);
        let fresh2 = if id_stored(r, id) {
            fresh
        } else {
            fresh.push(id)
        };
        (upsert_one(r, manga_id, provider, info, now), fresh2)
    }
}

/// What a later state of a row keeps of an earlier one: its identity, key,
/// download status and downloaded file, its release time, a title that says
/// something, and the extra flag once set.
pub open spec fn kept(a: RowView, b: RowView) -> bool {
    &&& b.id == a.id
    &&& b.manga_id == a.manga_id
    &&& b.chapter_base == a.chapter_base
    &&& b.chapter_variant == a.chapter_variant
    &&& b.language == a.language
    &&& b.scanlator_group == a.scanlator_group
    &&& b.provider_name == a.provider_name
    &&& b.download_status == a.download_status
    &&& b.released_at == a.released_at
    &&& b.downloaded_at == a.downloaded_at
    &&& b.file_size_bytes == a.file_size_bytes
    &&& has_title(a.title) ==> b.title == a.title
    &&& a.is_extra ==> b.is_extra
}

/// The row's id is the chapter id of its own key.
pub open spec fn id_follows_key(r: RowView) -> bool {
    match (r.scanlator_group, r.provider_name) {
        (Some(g), Some(p)) => r.id == uuid_v5(
            CHAPTER_NAMESPACE,
            chapter_key_text(r.manga_id, r.chapter_base, r.chapter_variant, r.language, g, p),
        ),
        _ => true,
    }
}

proof fn lemma_upsert_one(rows: Seq<RowView>, manga_id: u128, provider: Seq<char>, info: ScrapedChapter, now: i64)
    ensures
        ({
            let r2 = upsert_one(rows, manga_id, provider, info, now);
            &&& rows.len() <= r2.len() <= rows.len() + 1
            &&& forall|i: int| 0 <= i < rows.len() ==> kept(rows[i], #[trigger] r2[i])
            &&& exists|j: int| 0 <= j < r2.len() && same_key(#[trigger] r2[j], manga_id, provider, info)
            &&& (forall|i: int| 0 <= i < rows.len() ==> id_follows_key(#[trigger] rows[i]))
                ==> forall|i: int| 0 <= i < r2.len() ==> id_follows_key(#[trigger] r2[i])
        }),
{
    let r2 = upsert_one(rows, manga_id, provider, info, now);
    lemma_key_index_found(rows, manga_id, provider, info, 0);
    match key_index_from(rows, manga_id, provider, info, 0) {
        Some(k) => {
            assert(same_key(r2[k], manga_id, provider, info));
            if forall|i: int| 0 <= i < rows.len() ==> id_follows_key(#[trigger] rows[i]) {
                assert forall|i: int| 0 <= i < r2.len() implies id_follows_key(#[trigger] r2[i]) by {
                    assert(id_follows_key(rows[i]));
                }
            }
        },
        None => {
            let n = rows.len() as int;
            assert(r2[n] == new_row(manga_id, provider, info, now));
            assert(same_key(r2[n], manga_id, provider, info));
            if forall|i: int| 0 <= i < rows.len() ==> id_follows_key(#[trigger] rows[i]) {
                assert forall|i: int| 0 <= i < r2.len() implies id_follows_key(#[trigger] r2[i]) by {
                    if i < n {
                        assert(id_follows_key(rows[i]));
                    }
                }
            }
        },
    }
}

proof fn lemma_upsert_all(rows: Seq<RowView>, manga_id: u128, provider: Seq<char>, infos: Seq<ScrapedChapter>, now: i64)
    ensures
        ({
            let after = upsert_all(rows, manga_id, provider, infos, now).0;
            &&& rows.len() <= after.len()
            &&& forall|i: int| 0 <= i < rows.len() ==> kept(rows[i], #[trigger] after[i])
            &&& forall|k: int| 0 <= k < infos.len() ==> exists|j: int|
                0 <= j < after.len() && same_key(#[trigger] after[j], manga_id, provider, #[trigger] infos[k])
            &&& (forall|i: int| 0 <= i < rows.len() ==> id_follows_key(#[trigger] rows[i]))
                ==> forall|i: int| 0 <= i < after.len() ==> id_follows_key(#[trigger] after[i])
        }),
    decreases infos.len(),
{
    if infos.len() > 0 {
        let front = infos.drop_last();
        lemma_upsert_all(rows, manga_id, provider, front, now);
        let r = upsert_all(rows, manga_id, provider, front, now).0;
        let info = infos.last();
        lemma_upsert_one(r, manga_id, provider, info, now);
        let after = upsert_all(rows, manga_id, provider, infos, now).0;
        assert(after == upsert_one(r, manga_id, provider, info, now));
        assert forall|i: int| 0 <= i < rows.len() implies kept(rows[i], #[trigger] after[i]) by {
            assert(kept(rows[i], r[i]));
            assert(kept(r[i], after[i]));
        }
        assert forall|k: int| 0 <= k < infos.len() implies exists|j: int|
            0 <= j < after.len() && same_key(#[trigger] after[j], manga_id, provider, #[trigger] infos[k]) by {
            if k < infos.len() - 1 {
                assert(infos[k] == front[k]);
                let j = choose|j: int| 0 <= j < r.len() && same_key(#[trigger] r[j], manga_id, provider, front[k]);
                assert(kept(r[j], after[j]));
                assert(same_key(after[j], manga_id, provider, infos[k]));
            } else {
                assert(infos[k] == info);
            }
        }
    }
}

/// A scrape loses nothing that is stored: every row stays where it was, with
/// its id, key, download status and downloaded file, release time, a title
/// that says something, and its extra flag once set; rows are only added.
pub proof fn law_scrape_keeps_stored(
    before: Seq<RowView>,
    manga_id: u128,
    provider: Seq<char>,
    infos: Seq<ScrapedChapter>,
    now: i64,
)
    ensures
        ({
            let after = upsert_all(before, manga_id, provider, infos, now).0;
            &&& before.len() <= after.len()
            &&& forall|i: int| 0 <= i < before.len() ==> kept(before[i], #[trigger] after[i])
        }),
{
    lemma_upsert_all(before, manga_id, provider, infos, now);
}

/// After a scrape, every chapter of the listing has a row with its key.
pub proof fn law_scrape_stores_every_chapter(
    before: Seq<RowView>,
    manga_id: u128,
    provider: Seq<char>,
    infos: Seq<ScrapedChapter>,
    now: i64,
)
    ensures
        forall|k: int| 0 <= k < infos.len() ==> exists|j: int|
            0 <= j < upsert_all(before, manga_id, provider, infos, now).0.len()
            && same_key(#[trigger] upsert_all(before, manga_id, provider, infos, now).0[j], manga_id, provider, #[trigger] infos[k]),
{
    lemma_upsert_all(before, manga_id, provider, infos, now);
}

proof fn lemma_rescrape(rows: Seq<RowView>, manga_id: u128, provider: Seq<char>, infos: Seq<ScrapedChapter>, now: i64)
    requires
        forall|i: int| 0 <= i < rows.len() ==> id_follows_key(#[trigger] rows[i]),
        forall|k: int| 0 <= k < infos.len() ==> exists|j: int|
            0 <= j < rows.len() && same_key(#[trigger] rows[j], manga_id, provider, #[trigger] infos[k]),
    ensures
        upsert_all(rows, manga_id, provider, infos, now).1 == Seq::<u128>::empty(),
        upsert_all(rows, manga_id, provider, infos, now).0.len() == rows.len(),
    decreases infos.len(),
{
    if infos.len() > 0 {
        let front = infos.drop_last();
        assert forall|k: int| 0 <= k < front.len() implies exists|j: int|
            0 <= j < rows.len() && same_key(#[trigger] rows[j], manga_id, provider, #[trigger] front[k]) by {
            assert(front[k] == infos[k]);
        }
        lemma_rescrape(rows, manga_id, provider, front, now);
        lemma_upsert_all(rows, manga_id, provider, front, now);
        let r = upsert_all(rows, manga_id, provider, front, now).0;
        let info = infos.last();
        assert(info == infos[infos.len() - 1]);
        let j = choose|j: int| 0 <= j < rows.len() && same_key(#[trigger] rows[j], manga_id, provider, info);
        assert(kept(rows[j], r[j]));
        assert(id_follows_key(rows[j]));
        assert(r[j].id == scrape_id(manga_id, provider, info));
        assert(id_stored(r, scrape_id(manga_id, provider, info)));
        assert(same_key(r[j], manga_id, provider, info));
        lemma_key_index_some(r, manga_id, provider, info, j, 0);
        lemma_key_index_found(r, manga_id, provider, info, 0);
        assert(upsert_all(rows, manga_id, provider, infos, now).0 == upsert_one(r, manga_id, provider, info, now));
        let k = key_index_from(r, manga_id, provider, info, 0).unwrap();
        assert(upsert_one(r, manga_id, provider, info, now) == r.update(k, refreshed(r[k], info, now)));
    }
}

proof fn lemma_key_index_some(rows: Seq<RowView>, manga_id: u128, provider: Seq<char>, info: ScrapedChapter, j: int, k: int)
    requires
        0 <= k <= j < rows.len(),
        same_key(rows[j], manga_id, provider, info),
    ensures
        key_index_from(rows, manga_id, provider, info, k) is Some,
    decreases j - k,
{
    if k < j && !same_key(rows[k], manga_id, provider, info) {
        lemma_key_index_some(rows, manga_id, provider, info, j, k + 1);
    }
}

/// Scraping the same listing again reports no new chapter and adds no row,
/// when every stored row's id is the chapter id of its key (as the ids a
/// scrape gives are).
pub proof fn law_rescrape_finds_nothing_new(
    before: Seq<RowView>,
    manga_id: u128,
    provider: Seq<char>,
    infos: Seq<ScrapedChapter>,
    now: i64,
    later: i64,
)
    requires
        forall|i: int| 0 <= i < before.len() ==> id_follows_key(#[trigger] before[i]),
    ensures
        upsert_all(upsert_all(before, manga_id, provider, infos, now).0, manga_id, provider, infos, later).1
            == Seq::<u128>::empty(),
        upsert_all(upsert_all(before, manga_id, provider, infos, now).0, manga_id, provider, infos, later).0.len()
            == upsert_all(before, manga_id, provider, infos, now).0.len(),
{
    lemma_upsert_all(before, manga_id, provider, infos, now);
    lemma_rescrape(upsert_all(before, manga_id, provider, infos, now).0, manga_id, provider, infos, later);
}

fn text_of(o: &Option<String>) -> (r: String)
    ensures
        r@ == text_or_empty(*o),
{
    match o {
        Some(s) => s.clone(),
        None => String::new(),
    }
}

fn opt_eq(o: &Option<String>, t: &str) -> (r: bool)
    ensures
        r == (opt_view(*o) == Some(t@)),
{
    match o {
        Some(s) => str_eq(s.as_str(), t),
        None => false,
    }
}

fn id_position(rows: &Vec<StoredChapter>, id: u128) -> (r: bool)
    ensures
        r == id_stored(rows_view(rows@), id),
{
    let ghost v = rows_view(rows@);
    let mut i: usize = 0;
    while i < rows.len()
        invariant
            i <= rows@.len(),
            v == rows_view(rows@),
            forall|j: int| 0 <= j < i ==> v[j].id != id,
        decreases rows.len() - i,
    {
        if rows[i].id == id {
            assert(v[i as int].id == id);
            return true;
        }
        i = i + 1;
    }
    false
}

proof fn lemma_key_index_skip(rows: Seq<RowView>, manga_id: u128, provider: Seq<char>, info: ScrapedChapter, k: int)
    requires
        0 <= k <= rows.len(),
        forall|j: int| 0 <= j < k ==> !same_key(rows[j], manga_id, provider, info),
    ensures
        key_index_from(rows, manga_id, provider, info, 0) == key_index_from(rows, manga_id, provider, info, k),
    decreases k,
{
    if k > 0 {
        lemma_key_index_skip(rows, manga_id, provider, info, k - 1);
    }
}

proof fn lemma_key_index_found(rows: Seq<RowView>, manga_id: u128, provider: Seq<char>, info: ScrapedChapter, k: int)
    ensures
        key_index_from(rows, manga_id, provider, info, k) matches Some(i) ==> k <= i < rows.len()
            && same_key(rows[i], manga_id, provider, info),
    decreases rows.len() - k,
{
    if 0 <= k < rows.len() && !same_key(rows[k], manga_id, provider, info) {
        lemma_key_index_found(rows, manga_id, provider, info, k + 1);
    }
}

fn key_position(
    rows: &Vec<StoredChapter>,
    manga_id: u128,
    provider: &str,
    info: &ScrapedChapter,
    language: &String,
    group: &String,
) -> (r: Option<usize>)
    requires
        language@ == scrape_language(*info),
        group@ == text_or_empty(info.scanlator_group),
    ensures
        match r {
            Some(i) => key_index_from(rows_view(rows@), manga_id, provider@, *info, 0) == Some(i as int)
                && i < rows@.len(),
            None => key_index_from(rows_view(rows@), manga_id, provider@, *info, 0) is None,
        },
{
    let ghost v = rows_view(rows@);
    let mut i: usize = 0;
    while i < rows.len()
        invariant
            i <= rows@.len(),
            v == rows_view(rows@),
            language@ == scrape_language(*info),
            group@ == text_or_empty(info.scanlator_group),
            forall|j: int| 0 <= j < i ==> !same_key(#[trigger] v[j], manga_id, provider@, *info),
        decreases rows.len() - i,
    {
        let r = &rows[i];
        assert(v[i as int] == row_view(*r));
        if r.manga_id == manga_id && r.chapter_base == info.chapter_base && r.chapter_variant == info.chapter_variant
            && str_eq(r.language.as_str(), language.as_str()) && opt_eq(&r.scanlator_group, group.as_str())
            && opt_eq(&r.provider_name, provider) {
            proof {
                lemma_key_index_skip(v, manga_id, provider@, *info, i as int);
            }
            return Some(i);
        }
        i = i + 1;
    }
    proof {
        lemma_key_index_skip(v, manga_id, provider@, *info, i as int);
    }
    None
}

/// Merges a provider's chapter listing into the stored rows, in listing order,
/// at time `now`. A chapter whose key (series, chapter, language, group,
/// provider) no row has becomes a new row with status `Missing`; a chapter
/// whose key a row has refreshes that row. Returns the ids, in listing order,
/// of the chapters whose id no row had before their merge.
pub fn upsert_from_scrape(
    rows: &mut Vec<StoredChapter>,
    manga_id: u128,
    provider_name: &str,
    infos: &[ScrapedChapter],
    now: i64,
) -> (fresh: Vec<u128>)
    ensures
        (rows_view(final(rows)@), fresh@) == upsert_all(rows_view(old(rows)@), manga_id, provider_name@, infos@, now),
{
    let mut fresh: Vec<u128> = Vec::new();
    let mut k: usize = 0;
    while k < infos.len()
        invariant
            k <= infos@.len(),
            (rows_view(rows@), fresh@) == upsert_all(rows_view(old(rows)@), manga_id, provider_name@, infos@.take(k as int), now),
        decreases infos.len() - k,
    {
        let info = &infos[k];
        let ghost before = rows_view(rows@);
        let language = to_uppercase(
            match &info.language {
                Some(l) => l.as_str(),
                None => "EN",
            },
        );
        let group = text_of(&info.scanlator_group);
        let group_ref: Option<&str> = match &info.scanlator_group {
            Some(g) => Some(g.as_str()),
            None => None,
        };
        let id = chapter_uuid(manga_id, info.chapter_base, info.chapter_variant, language.as_str(), group_ref, Some(provider_name));
        proof {
            assert(or_empty(group_ref) == text_or_empty(info.scanlator_group));
            assert(or_empty(Some(provider_name)) == provider_name@);
        }
        let known = id_position(rows, id);
        match key_position(rows, manga_id, provider_name, info, &language, &group) {
            Some(i) => {
                let r = &rows[i];
                let keeps_title = match &r.title {
                    Some(t) => t.as_str().unicode_len() > 0,
                    None => false,
                };
                let title = if keeps_title {
                    clone_opt(&r.title)
                } else {
                    Some(text_of(&info.title))
                };
                let merged = StoredChapter {
                    id: r.id,
                    manga_id: r.manga_id,
                    chapter_base: r.chapter_base,
                    chapter_variant: r.chapter_variant,
                    is_extra: r.is_extra || info.is_extra,
                    title,
                    language: r.language.clone(),
                    scanlator_group: clone_opt(&r.scanlator_group),
                    provider_name: clone_opt(&r.provider_name),
                    chapter_url: clone_opt(&info.url),
                    download_status: r.download_status.clone(),
                    released_at: r.released_at,
                    downloaded_at: r.downloaded_at,
                    scraped_at: Some(now),
                    file_size_bytes: r.file_size_bytes,
                };
                proof {
                    assert(row_view(merged) == refreshed(before[i as int], *info, now));
                }
                rows.set(i, merged);
                proof {
                    assert(rows_view(rows@) =~= before.update(i as int, refreshed(before[i as int], *info, now)));
                }
            },
            None => {
                let row = StoredChapter {
                    id,
                    manga_id,
                    chapter_base: info.chapter_base,
                    chapter_variant: info.chapter_variant,
                    is_extra: info.is_extra,
                    title: Some(text_of(&info.title)),
                    language,
                    scanlator_group: Some(group),
                    provider_name: Some(provider_name.to_owned()),
                    chapter_url: clone_opt(&info.url),
                    download_status: "Missing".to_owned(),
                    released_at: info.date_released,
                    downloaded_at: None,
                    scraped_at: Some(now),
                    file_size_bytes: None,
                };
                proof {
                    assert(row_view(row) == new_row(manga_id, provider_name@, *info, now));
                }
                rows.push(row);
                proof {
                    assert(rows_view(rows@) =~= before.push(new_row(manga_id, provider_name@, *info, now)));
                }
            },
        }
        if !known {
            fresh.push(id);
        }
        proof {
            assert(infos@.take(k + 1).drop_last() =~= infos@.take(k as int));
            assert(infos@.take(k + 1).last() == infos@[k as int]);
        }
        k = k + 1;
    }
    proof {
        assert(infos@.take(infos@.len() as int) =~= infos@);
    }
    fresh
}

// ---------------------------------------------------------------------------
// Series counters
// ---------------------------------------------------------------------------

/// The times a row knows: when it was downloaded, released and scraped.
pub open spec fn row_time(r: RowView, t: i64) -> bool {
    r.downloaded_at == Some(t) || r.released_at == Some(t) || r.scraped_at == Some(t)
}

/// The row has some time.
pub open spec fn row_has_time(r: RowView) -> bool {
    r.downloaded_at is Some || r.released_at is Some || r.scraped_at is Some
}

fn later_of(a: Option<i64>, b: Option<i64>) -> (r: Option<i64>)
    ensures
        a is None && b is None <==> r is None,
        r matches Some(t) ==> (a == Some(t) || b == Some(t)) && (a matches Some(x) ==> x <= t) && (b matches Some(y) ==> y <= t),
{
    match (a, b) {
        (Some(x), Some(y)) => Some(if x >= y { x } else { y }),
        (Some(x), None) => Some(x),
        (None, y) => y,
    }
}

/// The time of the series' latest chapter: the latest of the download,
/// release and scrape times that its rows know; none when they know none.
pub fn last_chapter_at(rows: &[StoredChapter], manga_id: u128) -> (r: Option<i64>)
    ensures
        ({
            let v = rows_view(rows@);
            &&& r is None <==> forall|i: int| 0 <= i < v.len() && (#[trigger] v[i]).manga_id == manga_id ==> !row_has_time(v[i])
            &&& r matches Some(t) ==> {
                &&& exists|i: int| 0 <= i < v.len() && (#[trigger] v[i]).manga_id == manga_id && row_time(v[i], t)
                &&& forall|i: int, x: i64| 0 <= i < v.len() && v[i].manga_id == manga_id && #[trigger] row_time(v[i], x) ==> x <= t
            }
        }),
{
    let ghost v = rows_view(rows@);
    let mut best: Option<i64> = None;
    let mut i: usize = 0;
    while i < rows.len()
        invariant
            i <= rows@.len(),
            v == rows_view(rows@),
            best is None <==> forall|j: int| 0 <= j < i && (#[trigger] v[j]).manga_id == manga_id ==> !row_has_time(v[j]),
            best matches Some(t) ==> {
                &&& exists|j: int| 0 <= j < i && (#[trigger] v[j]).manga_id == manga_id && row_time(v[j], t)
                &&& forall|j: int, x: i64| 0 <= j < i && v[j].manga_id == manga_id && #[trigger] row_time(v[j], x) ==> x <= t
            },
        decreases rows.len() - i,
    {
        let r = &rows[i];
        assert(v[i as int] == row_view(*r));
        if r.manga_id == manga_id {
            let t = later_of(later_of(r.downloaded_at, r.released_at), r.scraped_at);
            let ghost prev = best;
            best = later_of(best, t);
            proof {
                if let Some(b) = best {
                    if prev == Some(b) {
                        let j = choose|j: int| 0 <= j < i && (#[trigger] v[j]).manga_id == manga_id && row_time(v[j], b);
                    } else {
                        assert(row_time(v[i as int], b));
                    }
                }
            }
        }
        i = i + 1;
    }
    best
}

/// Rows whose id is among the canonical ones.
pub open spec fn canonical_row(canonical: Seq<u128>) -> spec_fn(RowView) -> bool {
    |r: RowView| canonical.contains(r.id)
}

/// Canonical rows that are downloaded.
pub open spec fn downloaded_canonical_row(canonical: Seq<u128>) -> spec_fn(RowView) -> bool {
    |r: RowView| canonical.contains(r.id) && r.download_status == "Downloaded"@
}

/// The series' chapter counts: how many rows are canonical, and how many of
/// those are downloaded.
pub fn manga_counts(rows: &[StoredChapter], canonical: &Vec<u128>) -> (r: (usize, usize))
    ensures
        r.0 == rows_view(rows@).filter(canonical_row(canonical@)).len(),
        r.1 == rows_view(rows@).filter(downloaded_canonical_row(canonical@)).len(),
{
    let ghost v = rows_view(rows@);
    let ghost p = canonical_row(canonical@);
    let ghost q = downloaded_canonical_row(canonical@);
    let mut count: usize = 0;
    let mut downloaded: usize = 0;
    let mut i: usize = 0;
    while i < rows.len()
        invariant
            i <= rows@.len(),
            v == rows_view(rows@),
            p == canonical_row(canonical@),
            q == downloaded_canonical_row(canonical@),
            count == v.take(i as int).filter(p).len(),
            downloaded == v.take(i as int).filter(q).len(),
            count <= i,
            downloaded <= i,
        decreases rows.len() - i,
    {
        let r = &rows[i];
        proof {
            assert(v.take(i + 1) =~= v.take(i as int).push(v[i as int]));
            v.take(i as int).lemma_filter_push(v[i as int], p);
            v.take(i as int).lemma_filter_push(v[i as int], q);
            assert(v[i as int] == row_view(*r));
        }
        if contains_id(canonical, r.id) {
            count = count + 1;
            if str_eq(r.download_status.as_str(), "Downloaded") {
                downloaded = downloaded + 1;
            }
        }
        i = i + 1;
    }
    proof {
        assert(v.take(v.len() as int) =~= v);
    }
    (count, downloaded)
}

} // verus!
