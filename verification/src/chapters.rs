//! The chapter list of a series as the API shows it: every provider's rows in
//! the preferred language, each marked canonical or not, and the canonical
//! rows showing the best title and the earliest release of their slot; and how
//! long ago a chapter was found, as the list words it.

use vstd::prelude::*;
use crate::ids::{contains_id, uuid_string, uuid_text};
use crate::text::{clone_opt, eq_ignore_ascii_case, eq_ignore_ascii_case_spec, first_word, first_word_of, nat_digits, opt_view};
use crate::webhook::clone_strings;

verus! {

/// A chapter row with what the scoring and the metadata rules made of it.
#[derive(Debug)]
pub struct ChapterRow {
    pub id: u128,
    pub manga_id: u128,
    pub chapter_base: i32,
    pub chapter_variant: i32,
    /// The title after the metadata rules.
    pub filtered_title: Option<String>,
    /// The scanlator group after the metadata rules.
    pub filtered_scanlator_group: Option<String>,
    pub language: String,
    pub provider_name: Option<String>,
    pub chapter_url: Option<String>,
    pub download_status: String,
    /// Unix times in seconds.
    pub released_at: Option<i64>,
    pub downloaded_at: Option<i64>,
    pub scraped_at: Option<i64>,
    pub is_extra: bool,
    /// The quality score and the rules that made it.
    pub score: i32,
    pub matched_rules: Vec<(String, i32)>,
    pub file_size_bytes: Option<i64>,
    pub tags: Vec<String>,
}

/// A canonical choice the user made for a slot.
#[derive(Debug, Clone, Copy)]
pub struct CanonicalOverride {
    pub chapter_base: i32,
    pub chapter_variant: i32,
    pub chapter_id: u128,
}

/// One row of the chapter list.
#[derive(Debug)]
pub struct ChapterListItem {
    pub id: String,
    pub manga_id: String,
    pub chapter_base: i32,
    pub chapter_variant: i32,
    pub title: Option<String>,
    pub language: String,
    pub scanlator_group: Option<String>,
    pub provider_name: Option<String>,
    pub chapter_url: Option<String>,
    pub download_status: String,
    pub released_at: Option<i64>,
    pub downloaded_at: Option<i64>,
    pub scraped_at: Option<i64>,
    pub is_extra: bool,
    /// Whether the row is the canonical winner of its slot.
    pub is_canonical: bool,
    /// Whether the user chose that winner.
    pub has_canonical_override: bool,
    pub score: i32,
    pub matched_rules: Vec<(String, i32)>,
    pub file_size_bytes: Option<i64>,
    pub tags: Vec<String>,
}

/// One unit of a written duration: the count and the unit's name, with an
/// `s` after the name when `plural` and the count is above one; nothing when
/// the count is zero.
pub open spec fn duration_part(count: nat, name: Seq<char>, plural: bool) -> Seq<char> {
    if count == 0 {
        Seq::empty()
    } else {
        nat_digits(count) + name + if plural && count > 1 { "s"@ } else { Seq::empty() }
    }
}

/// Joins the parts that are not empty, a space between two of them.
pub open spec fn join_parts(parts: Seq<Seq<char>>) -> Seq<char>
    decreases parts.len(),
{
    if parts.len() == 0 {
        Seq::empty()
    } else {
        let rest = join_parts(parts.drop_first());
        if parts[0].len() == 0 {
            rest
        } else if rest.len() == 0 {
            parts[0]
        } else {
            parts[0] + " "@ + rest
        }
    }
}

/// A whole number of seconds written as humantime writes a duration: years of
/// 365.25 days, months of 30.44 days, days, hours, minutes and seconds, each
/// unit that is not zero written as its count and name (`year`, `month` and
/// `day` take an `s` above one), separated by spaces; `0s` for no time.
pub open spec fn duration_text(secs: nat) -> Seq<char> {
    if secs == 0 {
        "0s"@
    } else {
        let ydays = secs % 31_557_600;
        let mdays = ydays % 2_630_016;
        let day_secs = mdays % 86400;
        join_parts(seq![
            duration_part(secs / 31_557_600, "year"@, true),
            duration_part(ydays / 2_630_016, "month"@, true),
            duration_part(mdays / 86400, "day"@, true),
            duration_part(day_secs / 3600, "h"@, false),
            duration_part(day_secs % 3600 / 60, "m"@, false),
            duration_part(day_secs % 60, "s"@, false),
        ])
    }
}

/// `humantime::format_duration` of a whole number of seconds, as text: the
/// contract states the text as `duration_text` (no sub-second units arise).
#[verifier::external_body]
fn format_duration_secs(secs: u64) -> (r: String)
    ensures
        r@ == duration_text(secs as nat),
{
    humantime::format_duration(std::time::Duration::from_secs(secs)).to_string()
}

/// How long ago something was found, in the most significant unit only: the
/// first word of the human-readable age (`"3days"`, `"5h"`), or `"just now"`
/// when that text has no word. A time in the future counts as no time at all.
pub open spec fn found_ago_spec(age_secs: int) -> Seq<char> {
    let secs: u64 = if age_secs <= 0 { 0 } else { age_secs as u64 };
    match first_word(duration_text(secs as nat)) {
        Some(w) => w,
        None => "just now"@,
    }
}

/// The age shown for a chapter found at `created_at`, seen at `now` (Unix
/// times in seconds).
pub fn format_found_ago(created_at: i64, now: i64) -> (r: String)
    ensures
        r@ == found_ago_spec(now - created_at),
{
    let age: i128 = now as i128 - created_at as i128;
    let secs: u64 = if age <= 0 { 0 } else { age as u64 };
    let text = format_duration_secs(secs);
    match first_word_of(text.as_str()) {
        Some(w) => w,
        None => "just now".to_owned(),
    }
}

/// A request to make a chapter the canonical one of its slot.
#[derive(Debug)]
pub struct SetCanonicalRequest {
    pub chapter_id: String,
}

/// A request to tag a chapter.
#[derive(Debug)]
pub struct AddTagRequest {
    pub tag: String,
}

/// Rows shown under a preferred language: those in it (any case) and those
/// without a language; all rows when none is preferred.
pub open spec fn visible(preferred: Seq<char>, language: Seq<char>) -> bool {
    preferred.len() == 0 || eq_ignore_ascii_case_spec(language, preferred) || language.len() == 0
}

/// Rows of the same slot as `c`: its number and its language (any case).
pub open spec fn same_slot(c: ChapterRow, r: ChapterRow) -> bool {
    r.chapter_base == c.chapter_base && r.chapter_variant == c.chapter_variant
        && eq_ignore_ascii_case_spec(r.language@, c.language@)
}

pub open spec fn nonempty_title(r: ChapterRow) -> Option<Seq<char>> {
    match r.filtered_title {
        Some(t) => if t@.len() > 0 { Some(t@) } else { None },
        None => None,
    }
}

/// The best title of a slot with its score: the highest-scored row of the
/// slot with a non-empty title, the first listed among equals.
pub open spec fn best_title(rows: Seq<ChapterRow>, c: ChapterRow) -> Option<(i32, Seq<char>)>
    decreases rows.len(),
{
    if rows.len() == 0 {
        None
    } else {
        let prev = best_title(rows.drop_last(), c);
        let r = rows.last();
        if same_slot(c, r) && nonempty_title(r) is Some {
            match prev {
                Some((s, t)) => if r.score > s { Some((r.score, nonempty_title(r).unwrap())) } else { prev },
                None => Some((r.score, nonempty_title(r).unwrap())),
            }
        } else {
            prev
        }
    }
}

/// The earliest release in a slot.
pub open spec fn earliest_release(rows: Seq<ChapterRow>, c: ChapterRow) -> Option<i64>
    decreases rows.len(),
{
    if rows.len() == 0 {
        None
    } else {
        let prev = earliest_release(rows.drop_last(), c);
        let r = rows.last();
        if same_slot(c, r) && r.released_at is Some {
            match prev {
                Some(t) => if r.released_at.unwrap() < t { r.released_at } else { prev },
                None => r.released_at,
            }
        } else {
            prev
        }
    }
}

/// The override of a slot, the first listed.
pub open spec fn override_for(ovs: Seq<CanonicalOverride>, base: i32, variant: i32) -> Option<u128>
    decreases ovs.len(),
{
    if ovs.len() == 0 {
        None
    } else if ovs[0].chapter_base == base && ovs[0].chapter_variant == variant {
        Some(ovs[0].chapter_id)
    } else {
        override_for(ovs.drop_first(), base, variant)
    }
}

/// What a visible row shows: a canonical row shows the best title of its
/// slot (which may be none) and its earliest release (or its own); another
/// row shows its own title and release.
pub open spec fn item_ok(
    rows: Seq<ChapterRow>,
    canonical: Seq<u128>,
    ovs: Seq<CanonicalOverride>,
    r: ChapterRow,
    i: ChapterListItem,
) -> bool {
    let is_canonical = canonical.contains(r.id);
    &&& i.id@ == uuid_text(r.id)
    &&& i.manga_id@ == uuid_text(r.manga_id)
    &&& i.chapter_base == r.chapter_base
    &&& i.chapter_variant == r.chapter_variant
    &&& i.is_canonical == is_canonical
    &&& i.has_canonical_override == (is_canonical && override_for(ovs, r.chapter_base, r.chapter_variant) == Some(r.id))
    &&& opt_view(i.title) == (if is_canonical {
        match best_title(rows, r) { Some((_, t)) => Some(t), None => None }
    } else {
        opt_view(r.filtered_title)
    })
    &&& i.released_at == (if is_canonical {
        match earliest_release(rows, r) { Some(t) => Some(t), None => r.released_at }
    } else {
        r.released_at
    })
    &&& i.language@ == r.language@
    &&& opt_view(i.scanlator_group) == opt_view(r.filtered_scanlator_group)
    &&& opt_view(i.provider_name) == opt_view(r.provider_name)
    &&& opt_view(i.chapter_url) == opt_view(r.chapter_url)
    &&& i.download_status@ == r.download_status@
    &&& i.downloaded_at == r.downloaded_at
    &&& i.scraped_at == r.scraped_at
    &&& i.is_extra == r.is_extra
    &&& i.score == r.score
    &&& i.matched_rules@.len() == r.matched_rules@.len()
    &&& (forall|k: int| 0 <= k < r.matched_rules@.len() ==>
        (#[trigger] i.matched_rules@[k]).0@ == r.matched_rules@[k].0@ && i.matched_rules@[k].1 == r.matched_rules@[k].1)
    &&& i.file_size_bytes == r.file_size_bytes
    &&& i.tags@ == r.tags@
}

fn in_slot(c: &ChapterRow, r: &ChapterRow) -> (b: bool)
    ensures
        b == same_slot(*c, *r),
{
    r.chapter_base == c.chapter_base && r.chapter_variant == c.chapter_variant
        && eq_ignore_ascii_case(r.language.as_str(), c.language.as_str())
}

fn slot_best_title(rows: &Vec<ChapterRow>, c: &ChapterRow) -> (r: Option<String>)
    ensures
        opt_view(r) == match best_title(rows@, *c) { Some((_, t)) => Some(t), None => None },
{
    let mut best: Option<(i32, String)> = None;
    let mut i: usize = 0;
    while i < rows.len()
        invariant
            i <= rows@.len(),
            match best {
                Some((s, t)) => best_title(rows@.take(i as int), *c) == Some((s, t@)),
                None => best_title(rows@.take(i as int), *c) is None,
            },
        decreases rows.len() - i,
    {
        let r = &rows[i];
        proof {
            assert(rows@.take(i + 1).drop_last() =~= rows@.take(i as int));
        }
        if in_slot(c, r) {
            if let Some(t) = &r.filtered_title {
                if t.as_str().unicode_len() > 0 {
                    let replace = match &best {
                        Some((s, _)) => r.score > *s,
                        None => true,
                    };
                    if replace {
                        best = Some((r.score, t.clone()));
                    }
                }
            }
        }
        i = i + 1;
    }
    assert(rows@.take(rows@.len() as int) =~= rows@);
    match best {
        Some((_, t)) => Some(t),
        None => None,
    }
}

fn slot_earliest_release(rows: &Vec<ChapterRow>, c: &ChapterRow) -> (r: Option<i64>)
    ensures
        r == earliest_release(rows@, *c),
{
    let mut best: Option<i64> = None;
    let mut i: usize = 0;
    while i < rows.len()
        invariant
            i <= rows@.len(),
            best == earliest_release(rows@.take(i as int), *c),
        decreases rows.len() - i,
    {
        let r = &rows[i];
        proof {
            assert(rows@.take(i + 1).drop_last() =~= rows@.take(i as int));
        }
        if in_slot(c, r) {
            if let Some(t) = r.released_at {
                best = match best {
                    Some(b) => if t < b { Some(t) } else { Some(b) },
                    None => Some(t),
                };
            }
        }
        i = i + 1;
    }
    assert(rows@.take(rows@.len() as int) =~= rows@);
    best
}

fn find_override(ovs: &Vec<CanonicalOverride>, base: i32, variant: i32) -> (r: Option<u128>)
    ensures
        r == override_for(ovs@, base, variant),
{
    let mut i: usize = 0;
    assert(ovs@.skip(0) =~= ovs@);
    while i < ovs.len()
        invariant
            i <= ovs@.len(),
            override_for(ovs@, base, variant) == override_for(ovs@.skip(i as int), base, variant),
        decreases ovs.len() - i,
    {
        proof {
            assert(ovs@.skip(i as int).drop_first() =~= ovs@.skip(i + 1));
            assert(ovs@.skip(i as int)[0] == ovs@[i as int]);
        }
        if ovs[i].chapter_base == base && ovs[i].chapter_variant == variant {
            return Some(ovs[i].chapter_id);
        }
        i = i + 1;
    }
    None
}

fn clone_rules(v: &Vec<(String, i32)>) -> (r: Vec<(String, i32)>)
    ensures
        r@.len() == v@.len(),
        forall|k: int| 0 <= k < v@.len() ==> (#[trigger] r@[k]).0@ == v@[k].0@ && r@[k].1 == v@[k].1,
{
    let mut r: Vec<(String, i32)> = Vec::new();
    let mut i: usize = 0;
    while i < v.len()
        invariant
            i <= v@.len(),
            r@.len() == i,
            forall|k: int| 0 <= k < i ==> (#[trigger] r@[k]).0@ == v@[k].0@ && r@[k].1 == v@[k].1,
        decreases v.len() - i,
    {
        let (name, score) = &v[i];
        r.push((name.clone(), *score));
        i = i + 1;
    }
    r
}

fn list_item(rows: &Vec<ChapterRow>, canonical: &Vec<u128>, ovs: &Vec<CanonicalOverride>, r: &ChapterRow)
    -> (i: ChapterListItem)
    ensures
        item_ok(rows@, canonical@, ovs@, *r, i),
{
    let is_canonical = contains_id(canonical, r.id);
    let has_override = is_canonical && match find_override(ovs, r.chapter_base, r.chapter_variant) {
        Some(id) => id == r.id,
        None => false,
    };
    let (title, released_at) = if is_canonical {
        let t = slot_best_title(rows, r);
        let e = match slot_earliest_release(rows, r) {
            Some(t) => Some(t),
            None => r.released_at,
        };
        (t, e)
    } else {
        (clone_opt(&r.filtered_title), r.released_at)
    };
    ChapterListItem {
        id: uuid_string(r.id),
        manga_id: uuid_string(r.manga_id),
        chapter_base: r.chapter_base,
        chapter_variant: r.chapter_variant,
        title,
        language: r.language.clone(),
        scanlator_group: clone_opt(&r.filtered_scanlator_group),
        provider_name: clone_opt(&r.provider_name),
        chapter_url: clone_opt(&r.chapter_url),
        download_status: r.download_status.clone(),
        released_at,
        downloaded_at: r.downloaded_at,
        scraped_at: r.scraped_at,
        is_extra: r.is_extra,
        is_canonical,
        has_canonical_override: has_override,
        score: r.score,
        matched_rules: clone_rules(&r.matched_rules),
        file_size_bytes: r.file_size_bytes,
        tags: clone_strings(&r.tags),
    }
}

pub open spec fn visible_fn(preferred: Seq<char>) -> spec_fn(ChapterRow) -> bool {
    |r: ChapterRow| visible(preferred, r.language@)
}

/// The chapter list: one item per row shown under the preferred language, in
/// the rows' order. Canonical rows merge their slot's metadata across every
/// row of the slot, shown or not.
pub fn build_chapter_list(
    rows: &Vec<ChapterRow>,
    preferred_language: &str,
    canonical: &Vec<u128>,
    overrides: &Vec<CanonicalOverride>,
) -> (items: Vec<ChapterListItem>)
    ensures
        items@.len() == rows@.filter(visible_fn(preferred_language@)).len(),
        forall|k: int| 0 <= k < items@.len() ==> item_ok(
            rows@,
            canonical@,
            overrides@,
            rows@.filter(visible_fn(preferred_language@))[k],
            #[trigger] items@[k],
        ),
{
    let ghost pred = visible_fn(preferred_language@);
    let mut items: Vec<ChapterListItem> = Vec::new();
    let pref_empty = preferred_language.unicode_len() == 0;
    let mut i: usize = 0;
    while i < rows.len()
        invariant
            i <= rows@.len(),
            pred == visible_fn(preferred_language@),
            pref_empty == (preferred_language@.len() == 0),
            items@.len() == rows@.take(i as int).filter(pred).len(),
            forall|k: int| 0 <= k < items@.len() ==> item_ok(
                rows@,
                canonical@,
                overrides@,
                rows@.take(i as int).filter(pred)[k],
                #[trigger] items@[k],
            ),
        decreases rows.len() - i,
    {
        let r = &rows[i];
        proof {
            assert(rows@.take(i + 1) =~= rows@.take(i as int).push(*r));
            rows@.take(i as int).lemma_filter_push(*r, pred);
        }
        let shown = pref_empty || eq_ignore_ascii_case(r.language.as_str(), preferred_language)
            || r.language.as_str().unicode_len() == 0;
        if shown {
            let item = list_item(rows, canonical, overrides, r);
            let ghost prev = items@;
            items.push(item);
            proof {
                let f = rows@.take(i + 1).filter(pred);
                assert forall|k: int| 0 <= k < items@.len() implies item_ok(rows@, canonical@, overrides@, f[k], #[trigger] items@[k]) by {
                    if k < prev.len() {
                        assert(items@[k] == prev[k]);
                    }
                }
            }
        }
        i = i + 1;
    }
    assert(rows@.take(rows@.len() as int) =~= rows@);
    items
}

} // verus!
