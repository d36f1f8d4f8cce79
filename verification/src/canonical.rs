//! Canonical chapter selection: which provider release stands for each
//! chapter slot of a manga, how split chapters and extras are recognised,
//! and how the user's overrides replace the automatic choice.
//!
//! Chapters are identified by their UUID as a `u128`, providers by a key that
//! the caller assigns one-to-one to provider names, and every chapter carries
//! the quality score that the scoring rules gave it once metadata rules were
//! applied. Chapter slots are measured in tenths: chapter `b.v` has slot
//! `10 * b + v`.

use vstd::prelude::*;
use crate::text::{
    chars_of, contains, contains_spec, eq_ignore_ascii_case, eq_ignore_ascii_case_spec, to_lowercase,
    unicode_lowercase,
};

verus! {

/// One chapter row as canonical selection sees it.
#[derive(Debug)]
pub struct ScoredChapter {
    pub id: u128,
    pub chapter_base: i32,
    pub chapter_variant: i32,
    pub is_extra: bool,
    pub title: Option<String>,
    pub language: String,
    /// Provider key; `None` for chapters without a provider (e.g. found on disk).
    pub provider: Option<u32>,
    /// Quality score of the chapter after metadata rules were applied.
    pub score: i32,
}

impl ScoredChapter {
    /// A field-by-field copy.
    pub fn copy(&self) -> (r: Self)
        ensures
            r == *self,
    {
        let title = match &self.title {
            Some(t) => Some(t.clone()),
            None => None,
        };
        ScoredChapter {
            id: self.id,
            chapter_base: self.chapter_base,
            chapter_variant: self.chapter_variant,
            is_extra: self.is_extra,
            title,
            language: self.language.clone(),
            provider: self.provider,
            score: self.score,
        }
    }
}

// ---------------------------------------------------------------------------
// Provider and language filters
// ---------------------------------------------------------------------------

/// The per-series setting for provider `k`, if one is stored.
pub open spec fn series_setting(overrides: Seq<(u32, bool)>, k: u32) -> Option<bool>
    decreases overrides.len(),
{
    if overrides.len() == 0 {
        None
    } else if overrides[0].0 == k {
        Some(overrides[0].1)
    } else {
        series_setting(overrides.drop_first(), k)
    }
}

/// Whether chapters of `provider` take part: chapters without a provider always do;
/// otherwise the per-series setting wins over the global list of disabled providers.
pub open spec fn provider_enabled_spec(
    provider: Option<u32>,
    overrides: Seq<(u32, bool)>,
    disabled: Seq<u32>,
) -> bool {
    match provider {
        None => true,
        Some(k) => match series_setting(overrides, k) {
            Some(b) => b,
            None => !disabled.contains(k),
        },
    }
}

/// Whether chapters of `provider` take part in canonical selection.
pub fn provider_enabled(
    provider: Option<u32>,
    series_overrides: &[(u32, bool)],
    globally_disabled: &[u32],
) -> (r: bool)
    ensures
        r == provider_enabled_spec(provider, series_overrides@, globally_disabled@),
{
    match provider {
        None => true,
        Some(k) => {
            let mut i: usize = 0;
            assert(series_overrides@.skip(0) =~= series_overrides@);
            while i < series_overrides.len()
                invariant
                    provider == Some(k),
                    i <= series_overrides@.len(),
                    series_setting(series_overrides@, k) == series_setting(
                        series_overrides@.skip(i as int),
                        k,
                    ),
                decreases series_overrides.len() - i,
            {
                let (key, on) = series_overrides[i];
                assert(series_overrides@.skip(i as int)[0] == series_overrides@[i as int]);
                if key == k {
                    assert(series_setting(series_overrides@.skip(i as int), k) == Some(on));
                    return on;
                }
                assert(series_overrides@.skip(i as int).drop_first() =~= series_overrides@.skip(
                    (i + 1) as int,
                ));
                i = i + 1;
            }
            assert(series_overrides@.skip(i as int) =~= Seq::<(u32, bool)>::empty());
            let mut j: usize = 0;
            while j < globally_disabled.len()
                invariant
                    provider == Some(k),
                    j <= globally_disabled@.len(),
                    series_setting(series_overrides@, k) is None,
                    forall|m: int| 0 <= m < j ==> globally_disabled@[m] != k,
                decreases globally_disabled.len() - j,
            {
                if globally_disabled[j] == k {
                    assert(globally_disabled@.contains(k));
                    return false;
                }
                j = j + 1;
            }
            true
        },
    }
}

/// The chapters whose provider is enabled, in their original order.
pub open spec fn enabled_chapters_spec(
    all: Seq<ScoredChapter>,
    overrides: Seq<(u32, bool)>,
    disabled: Seq<u32>,
) -> Seq<ScoredChapter> {
    all.filter(|c: ScoredChapter| provider_enabled_spec(c.provider, overrides, disabled))
}

/// Drops chapters from disabled providers.
pub fn filter_enabled(
    all: &[ScoredChapter],
    series_overrides: &[(u32, bool)],
    globally_disabled: &[u32],
) -> (r: Vec<ScoredChapter>)
    ensures
        r@ == enabled_chapters_spec(all@, series_overrides@, globally_disabled@),
{
    let ghost pred = |c: ScoredChapter|
        provider_enabled_spec(c.provider, series_overrides@, globally_disabled@);
    let mut r: Vec<ScoredChapter> = Vec::new();
    let mut i: usize = 0;
    while i < all.len()
        invariant
            i <= all@.len(),
            pred == (|c: ScoredChapter|
                provider_enabled_spec(c.provider, series_overrides@, globally_disabled@)),
            r@ == all@.take(i as int).filter(pred),
        decreases all.len() - i,
    {
        assert(all@.take(i + 1) =~= all@.take(i as int).push(all@[i as int]));
        proof { all@.take(i as int).lemma_filter_push(all@[i as int], pred); }
        if provider_enabled(all[i].provider, series_overrides, globally_disabled) {
            r.push(all[i].copy());
        }
        i = i + 1;
    }
    assert(all@.take(all@.len() as int) =~= all@);
    r
}

/// Whether a chapter is in the preferred language (or has none set).
pub open spec fn language_matches(c: ScoredChapter, preferred: Seq<char>) -> bool {
    eq_ignore_ascii_case_spec(c.language@, preferred) || c.language@.len() == 0
}

/// With no preferred language every chapter stays; otherwise only chapters in that
/// language (or with none set), unless no chapter at all matches.
pub open spec fn language_filter_spec(all: Seq<ScoredChapter>, preferred: Seq<char>) -> Seq<
    ScoredChapter,
> {
    if preferred.len() == 0 {
        all
    } else {
        let f = all.filter(|c: ScoredChapter| language_matches(c, preferred));
        if f.len() == 0 {
            all
        } else {
            f
        }
    }
}

fn copy_all(all: &[ScoredChapter]) -> (r: Vec<ScoredChapter>)
    ensures
        r@ == all@,
{
    let mut r: Vec<ScoredChapter> = Vec::new();
    let mut i: usize = 0;
    while i < all.len()
        invariant
            i <= all@.len(),
            r@ == all@.take(i as int),
        decreases all.len() - i,
    {
        r.push(all[i].copy());
        i = i + 1;
        assert(r@ =~= all@.take(i as int));
    }
    assert(all@.take(all@.len() as int) =~= all@);
    r
}

/// Keeps the chapters in the preferred language, falling back to all chapters.
pub fn filter_language(all: &[ScoredChapter], preferred_language: &str) -> (r: Vec<ScoredChapter>)
    ensures
        r@ == language_filter_spec(all@, preferred_language@),
{
    if preferred_language.unicode_len() == 0 {
        return copy_all(all);
    }
    let ghost pred = |c: ScoredChapter| language_matches(c, preferred_language@);
    let mut r: Vec<ScoredChapter> = Vec::new();
    let mut i: usize = 0;
    while i < all.len()
        invariant
            i <= all@.len(),
            pred == (|c: ScoredChapter| language_matches(c, preferred_language@)),
            r@ == all@.take(i as int).filter(pred),
        decreases all.len() - i,
    {
        assert(all@.take(i + 1) =~= all@.take(i as int).push(all@[i as int]));
        proof { all@.take(i as int).lemma_filter_push(all@[i as int], pred); }
        let lang = all[i].language.as_str();
        if eq_ignore_ascii_case(lang, preferred_language) || lang.unicode_len() == 0 {
            r.push(all[i].copy());
        }
        i = i + 1;
    }
    assert(all@.take(all@.len() as int) =~= all@);
    if r.len() == 0 {
        copy_all(all)
    } else {
        r
    }
}

// ---------------------------------------------------------------------------
// Extras
// ---------------------------------------------------------------------------

/// Same provider and same chapter base.
pub open spec fn same_group(a: ScoredChapter, b: ScoredChapter) -> bool {
    a.provider == b.provider && a.chapter_base == b.chapter_base
}

/// Some chapter of `c`'s group has variant `v`.
pub open spec fn group_has_variant(all: Seq<ScoredChapter>, c: ScoredChapter, v: int) -> bool {
    exists|i: int| 0 <= i < all.len() && same_group(#[trigger] all[i], c) && all[i].chapter_variant == v
}

/// Some chapter of `c`'s group is a low-numbered split part (variant 1 to 4).
pub open spec fn group_has_low_part(all: Seq<ScoredChapter>, c: ScoredChapter) -> bool {
    exists|i: int|
        0 <= i < all.len() && same_group(#[trigger] all[i], c) && 1 <= all[i].chapter_variant <= 4
}

/// The chapter's title, or nothing.
pub open spec fn title_or_empty(c: ScoredChapter) -> Seq<char> {
    match c.title {
        Some(t) => t@,
        None => Seq::empty(),
    }
}

/// The lowercased title names the chapter an extra.
pub open spec fn extra_title_spec(c: ScoredChapter) -> bool {
    let t = unicode_lowercase(title_or_empty(c));
    ||| contains_spec(t, "extra"@)
    ||| contains_spec(t, "bonus"@)
    ||| contains_spec(t, "special"@)
    ||| contains_spec(t, "omake"@)
    ||| contains_spec(t, "side"@)
    ||| contains_spec(t, "extras"@)
}

/// What the automatic classification records for `c`, if anything: a title that says
/// "extra" (or bonus, special, omake, side) makes it an extra; a variant of 5 or more
/// is an extra unless the previous variant exists in its group and the group also
/// has low split parts (1 to 4). Variant 0 and variants 1 to 4 without such a
/// title are left alone.
pub open spec fn extra_decision(all: Seq<ScoredChapter>, c: ScoredChapter) -> Option<bool> {
    if c.chapter_variant < 1 {
        None
    } else if extra_title_spec(c) {
        Some(true)
    } else if c.chapter_variant >= 5 {
        if !group_has_variant(all, c, c.chapter_variant - 1) {
            Some(true)
        } else if group_has_low_part(all, c) {
            Some(false)
        } else {
            Some(true)
        }
    } else {
        None
    }
}

/// A part chapter (variant 1 or more) whose lowercased title says extra, bonus,
/// special, omake or side is classified an extra, whatever else the manga holds.
pub proof fn law_extra_titles_make_extras(all: Seq<ScoredChapter>, c: ScoredChapter)
    requires
        c.chapter_variant >= 1,
        c.title is Some,
        ({
            let t = unicode_lowercase(c.title.unwrap()@);
            ||| contains_spec(t, "extra"@)
            ||| contains_spec(t, "bonus"@)
            ||| contains_spec(t, "special"@)
            ||| contains_spec(t, "omake"@)
            ||| contains_spec(t, "side"@)
        }),
    ensures
        extra_decision(all, c) == Some(true),
{
}

/// A main chapter (variant 0) is never classified, whatever its title.
pub proof fn law_main_chapters_unclassified(all: Seq<ScoredChapter>, c: ScoredChapter)
    requires
        c.chapter_variant < 1,
    ensures
        extra_decision(all, c) is None,
{
}

/// The decisions for the first `n` chapters, as (chapter id, is extra), in order.
pub open spec fn extra_updates_upto(all: Seq<ScoredChapter>, n: int) -> Seq<(u128, bool)>
    decreases n,
{
    if n <= 0 {
        Seq::empty()
    } else {
        let prev = extra_updates_upto(all, n - 1);
        match extra_decision(all, all[n - 1]) {
            Some(b) => prev.push((all[n - 1].id, b)),
            None => prev,
        }
    }
}

/// Whether the chapter's title marks it as an extra.
pub fn has_extra_title(c: &ScoredChapter) -> (r: bool)
    ensures
        r == extra_title_spec(*c),
{
    let lower = match &c.title {
        Some(t) => to_lowercase(t.as_str()),
        None => to_lowercase(""),
    };
    proof {
        if c.title is None {
            assert(""@ =~= Seq::<char>::empty()) by {
                reveal_strlit("");
            }
        }
    }
    let t = chars_of(lower.as_str());
    let w1 = chars_of("extra");
    let w2 = chars_of("bonus");
    let w3 = chars_of("special");
    let w4 = chars_of("omake");
    let w5 = chars_of("side");
    let w6 = chars_of("extras");
    contains(t.as_slice(), w1.as_slice()) || contains(t.as_slice(), w2.as_slice()) || contains(
        t.as_slice(),
        w3.as_slice(),
    ) || contains(t.as_slice(), w4.as_slice()) || contains(t.as_slice(), w5.as_slice())
        || contains(t.as_slice(), w6.as_slice())
}

fn group_has_variant_exec(all: &[ScoredChapter], c: &ScoredChapter, v: i32) -> (r: bool)
    ensures
        r == group_has_variant(all@, *c, v as int),
{
    let mut i: usize = 0;
    while i < all.len()
        invariant
            i <= all@.len(),
            forall|j: int|
                0 <= j < i ==> !(same_group(#[trigger] all@[j], *c) && all@[j].chapter_variant
                    == v),
        decreases all.len() - i,
    {
        if all[i].provider == c.provider && all[i].chapter_base == c.chapter_base
            && all[i].chapter_variant == v {
            assert(same_group(all@[i as int], *c));
            return true;
        }
        i = i + 1;
    }
    false
}

fn group_has_low_part_exec(all: &[ScoredChapter], c: &ScoredChapter) -> (r: bool)
    ensures
        r == group_has_low_part(all@, *c),
{
    let mut i: usize = 0;
    while i < all.len()
        invariant
            i <= all@.len(),
            forall|j: int|
                0 <= j < i ==> !(same_group(#[trigger] all@[j], *c) && 1 <= all@[j].chapter_variant
                    <= 4),
        decreases all.len() - i,
    {
        if all[i].provider == c.provider && all[i].chapter_base == c.chapter_base && 1
            <= all[i].chapter_variant && all[i].chapter_variant <= 4 {
            assert(same_group(all@[i as int], *c));
            return true;
        }
        i = i + 1;
    }
    false
}

/// The extra flag that automatic classification gives `c`, if any.
pub fn classify_extra(all: &[ScoredChapter], c: &ScoredChapter) -> (r: Option<bool>)
    ensures
        r == extra_decision(all@, *c),
{
    if c.chapter_variant < 1 {
        return None;
    }
    if has_extra_title(c) {
        return Some(true);
    }
    if c.chapter_variant >= 5 {
        if !group_has_variant_exec(all, c, c.chapter_variant - 1) {
            Some(true)
        } else if group_has_low_part_exec(all, c) {
            Some(false)
        } else {
            Some(true)
        }
    } else {
        None
    }
}

/// The extra flags to record, one per chapter that the classification decides,
/// as (chapter id, is extra) in the order of `all`.
pub fn classify_extras(all: &[ScoredChapter]) -> (r: Vec<(u128, bool)>)
    ensures
        r@ == extra_updates_upto(all@, all@.len() as int),
{
    let mut r: Vec<(u128, bool)> = Vec::new();
    let mut i: usize = 0;
    while i < all.len()
        invariant
            i <= all@.len(),
            r@ == extra_updates_upto(all@, i as int),
        decreases all.len() - i,
    {
        match classify_extra(all, &all[i]) {
            Some(b) => {
                r.push((all[i].id, b));
            },
            None => {},
        }
        i = i + 1;
    }
    r
}

// ---------------------------------------------------------------------------
// Slots and split detection
// ---------------------------------------------------------------------------

/// Some chapter with base `base` is a low-numbered split part (variant 1 to 4).
pub open spec fn has_split_structure(all: Seq<ScoredChapter>, base: int) -> bool {
    exists|i: int|
        0 <= i < all.len() && (#[trigger] all[i]).chapter_base == base && 1 <= all[i].chapter_variant
            <= 4
}

/// The slot (in tenths) a chapter competes for: a full chapter and the parts of a
/// split chapter share the base chapter's slot; a standalone decimal chapter has
/// its own.
pub open spec fn slot_spec(base: int, variant: int, all: Seq<ScoredChapter>) -> int {
    if variant == 0 {
        base * 10
    } else if !has_split_structure(all, base) {
        base * 10 + variant
    } else {
        base * 10
    }
}

fn has_split_structure_exec(all: &[ScoredChapter], base: i32) -> (r: bool)
    ensures
        r == has_split_structure(all@, base as int),
{
    let mut i: usize = 0;
    while i < all.len()
        invariant
            i <= all@.len(),
            forall|j: int|
                0 <= j < i ==> !((#[trigger] all@[j]).chapter_base == base && 1
                    <= all@[j].chapter_variant <= 4),
        decreases all.len() - i,
    {
        if all[i].chapter_base == base && 1 <= all[i].chapter_variant && all[i].chapter_variant
            <= 4 {
            return true;
        }
        i = i + 1;
    }
    false
}

/// The slot, in tenths, of chapter `base.variant` among `all_chapters`.
pub fn assign_slot_id(chapter_base: i32, chapter_variant: i32, all_chapters: &[ScoredChapter]) -> (r:
    i64)
    ensures
        r == slot_spec(chapter_base as int, chapter_variant as int, all_chapters@),
{
    let b = chapter_base as i64 * 10;
    if chapter_variant == 0 {
        return b;
    }
    if !has_split_structure_exec(all_chapters, chapter_base) {
        b + chapter_variant as i64
    } else {
        b
    }
}

/// Chapter `base` is split: some part has variant 1 to 4, or more than one row has this base.
pub open spec fn is_split_spec(all: Seq<ScoredChapter>, base: int) -> bool {
    has_split_structure(all, base) || all.filter(|c: ScoredChapter| c.chapter_base == base).len()
        > 1
}

/// Whether chapter `chapter_base` is split into parts.
pub fn detect_split_chapters(chapter_base: i32, all_chapters: &[ScoredChapter]) -> (r: bool)
    ensures
        r == is_split_spec(all_chapters@, chapter_base as int),
{
    let ghost pred = |c: ScoredChapter| c.chapter_base == chapter_base as int;
    let mut count: usize = 0;
    let mut i: usize = 0;
    while i < all_chapters.len()
        invariant
            i <= all_chapters@.len(),
            pred == (|c: ScoredChapter| c.chapter_base == chapter_base as int),
            count == all_chapters@.take(i as int).filter(pred).len(),
            count <= i,
        decreases all_chapters.len() - i,
    {
        assert(all_chapters@.take(i + 1) =~= all_chapters@.take(i as int).push(
            all_chapters@[i as int],
        ));
        proof { all_chapters@.take(i as int).lemma_filter_push(all_chapters@[i as int], pred); }
        if all_chapters[i].chapter_base == chapter_base {
            count = count + 1;
        }
        i = i + 1;
    }
    assert(all_chapters@.take(all_chapters@.len() as int) =~= all_chapters@);
    has_split_structure_exec(all_chapters, chapter_base) || count > 1
}

// ---------------------------------------------------------------------------
// Provider bundles
// ---------------------------------------------------------------------------

/// How a provider's releases for one slot are to be read.
#[derive(Debug, Clone, Copy, PartialEq, Eq, Structural)]
pub enum BundleType {
    /// One release of the whole chapter (or competing releases of the same part).
    Full,
    /// Parts of a split chapter; every part is canonical together.
    Split,
    /// A standalone decimal chapter that is not part of a split.
    Extra,
}

/// One provider's releases competing for a slot.
#[derive(Debug)]
pub struct ProviderBundle {
    pub entries: Vec<ScoredChapter>,
    pub bundle_type: BundleType,
    pub coverage: usize,
}

/// A bundle as specifications see it.
pub struct BundleView {
    pub entries: Seq<ScoredChapter>,
    pub bundle_type: BundleType,
    pub coverage: nat,
}

impl View for ProviderBundle {
    type V = BundleView;

    open spec fn view(&self) -> BundleView {
        BundleView { entries: self.entries@, bundle_type: self.bundle_type, coverage: self.coverage as nat }
    }
}

/// The views of a sequence of bundles.
pub open spec fn bundle_views(bs: Seq<ProviderBundle>) -> Seq<BundleView> {
    bs.map_values(|b: ProviderBundle| b@)
}

/// Bundle classification: a single entry is full unless it is a decimal chapter
/// with no split structure among all of the manga's chapters (then it is an extra);
/// several entries are full when they share one variant, and split otherwise.
pub open spec fn bundle_type_spec(bundle: Seq<ScoredChapter>, all_for_manga: Seq<ScoredChapter>) -> BundleType {
    if bundle.len() == 1 {
        let c = bundle[0];
        if c.chapter_variant == 0 {
            BundleType::Full
        } else if slot_spec(c.chapter_base as int, c.chapter_variant as int, all_for_manga) != c.chapter_base * 10 {
            BundleType::Extra
        } else {
            BundleType::Full
        }
    } else if forall|i: int| 0 <= i < bundle.len() ==> (#[trigger] bundle[i]).chapter_variant == bundle[0].chapter_variant {
        BundleType::Full
    } else {
        BundleType::Split
    }
}

/// Classifies a provider's releases for one slot; `all_for_manga` holds every chapter row of the manga.
pub fn classify_bundle(bundle: &[ScoredChapter], all_for_manga: &[ScoredChapter]) -> (r: BundleType)
    ensures
        r == bundle_type_spec(bundle@, all_for_manga@),
{
    if bundle.len() == 1 {
        let c = &bundle[0];
        if c.chapter_variant == 0 {
            BundleType::Full
        } else {
            let slot = assign_slot_id(c.chapter_base, c.chapter_variant, all_for_manga);
            if slot != c.chapter_base as i64 * 10 {
                BundleType::Extra
            } else {
                BundleType::Full
            }
        }
    } else {
        let mut i: usize = 0;
        while i < bundle.len()
            invariant
                i <= bundle@.len(),
                bundle@.len() != 1,
                forall|j: int| 0 <= j < i ==> (#[trigger] bundle@[j]).chapter_variant == bundle@[0].chapter_variant,
            decreases bundle.len() - i,
        {
            if bundle[i].chapter_variant != bundle[0].chapter_variant {
                return BundleType::Split;
            }
            i = i + 1;
        }
        BundleType::Full
    }
}

/// How many slots a bundle covers: all its parts for a split, one otherwise.
pub open spec fn coverage_spec(bundle: Seq<ScoredChapter>, t: BundleType) -> nat {
    if t == BundleType::Split {
        bundle.len()
    } else {
        1
    }
}

/// The coverage of a provider's releases for one slot.
pub fn compute_bundle_coverage(bundle: &[ScoredChapter], all_for_manga: &[ScoredChapter]) -> (r: usize)
    ensures
        r == coverage_spec(bundle@, bundle_type_spec(bundle@, all_for_manga@)),
{
    if classify_bundle(bundle, all_for_manga) == BundleType::Split {
        bundle.len()
    } else {
        1
    }
}

// ---------------------------------------------------------------------------
// Choosing among bundles
// ---------------------------------------------------------------------------

/// Highest score among the entries.
pub open spec fn max_score(s: Seq<ScoredChapter>) -> int
    decreases s.len(),
{
    if s.len() == 0 {
        i32::MIN as int
    } else {
        let m = max_score(s.drop_last());
        if s.last().score > m {
            s.last().score as int
        } else {
            m
        }
    }
}

/// A bundle is represented by its best entry's score.
pub open spec fn bundle_score(b: BundleView) -> int {
    max_score(b.entries)
}

/// Best bundle score, never below `i32::MIN`.
pub open spec fn best_bundle_score(bs: Seq<BundleView>) -> int
    decreases bs.len(),
{
    if bs.len() == 0 {
        i32::MIN as int
    } else {
        let m = best_bundle_score(bs.drop_last());
        if bundle_score(bs.last()) > m {
            bundle_score(bs.last())
        } else {
            m
        }
    }
}

/// Positions of the bundles whose score is the best one.
pub open spec fn top_scored(bs: Seq<BundleView>) -> Seq<usize> {
    Seq::new(bs.len(), |i: int| i as usize).filter(|i: usize| bundle_score(bs[i as int]) == best_bundle_score(bs))
}

/// Coverage tie-break over the top-scored bundles, in order: a bundle with several
/// entries and more coverage than any before it restarts the list; bundles with a
/// single entry, or with the best coverage so far, join it.
pub open spec fn coverage_fold(bs: Seq<BundleView>, idx: Seq<usize>) -> (int, Seq<usize>)
    decreases idx.len(),
{
    if idx.len() == 0 {
        (0, Seq::empty())
    } else {
        let (best, kept) = coverage_fold(bs, idx.drop_last());
        let i = idx.last();
        let b = bs[i as int];
        if b.entries.len() > 1 && b.coverage > best {
            (b.coverage as int, seq![i])
        } else if b.entries.len() == 1 || b.coverage == best {
            (best, kept.push(i))
        } else {
            (best, kept)
        }
    }
}

/// The bundles that survive scoring and the coverage tie-break.
pub open spec fn finalists(bs: Seq<BundleView>) -> Seq<usize> {
    let s1 = top_scored(bs);
    if s1.len() > 1 {
        coverage_fold(bs, s1).1
    } else {
        s1
    }
}

/// Position of the last entry with the highest score.
pub open spec fn last_max_index(s: Seq<ScoredChapter>) -> int
    decreases s.len(),
{
    if s.len() <= 1 {
        0
    } else {
        let j = last_max_index(s.drop_last());
        if s.last().score >= s[j].score {
            s.len() - 1
        } else {
            j
        }
    }
}

/// Same chapter part.
pub open spec fn same_part(a: ScoredChapter, b: ScoredChapter) -> bool {
    a.chapter_base == b.chapter_base && a.chapter_variant == b.chapter_variant
}

/// Position in `p` of the entry for `e`'s part, if any.
pub open spec fn find_part(p: Seq<ScoredChapter>, e: ScoredChapter) -> Option<int>
    decreases p.len(),
{
    if p.len() == 0 {
        None
    } else {
        match find_part(p.drop_last(), e) {
            Some(j) => Some(j),
            None => if same_part(p.last(), e) {
                Some(p.len() - 1)
            } else {
                None
            },
        }
    }
}

/// One entry per part, in order of first appearance: the first entry with the
/// highest score for that part.
pub open spec fn best_per_part(s: Seq<ScoredChapter>) -> Seq<ScoredChapter>
    decreases s.len(),
{
    if s.len() == 0 {
        s
    } else {
        let p = best_per_part(s.drop_last());
        let e = s.last();
        match find_part(p, e) {
            Some(j) => if e.score > p[j].score {
                p.update(j, e)
            } else {
                p
            },
            None => p.push(e),
        }
    }
}

/// Chapter order: by base, then by variant.
pub open spec fn part_lt(a: ScoredChapter, b: ScoredChapter) -> bool {
    a.chapter_base < b.chapter_base || (a.chapter_base == b.chapter_base && a.chapter_variant < b.chapter_variant)
}

/// Position of the first entry that comes first in chapter order.
pub open spec fn min_part_index(s: Seq<ScoredChapter>) -> int
    decreases s.len(),
{
    if s.len() <= 1 {
        0
    } else {
        let j = min_part_index(s.drop_last());
        if part_lt(s.last(), s[j]) {
            s.len() - 1
        } else {
            j
        }
    }
}

pub proof fn lemma_min_part_index_bounds(s: Seq<ScoredChapter>)
    requires
        s.len() > 0,
    ensures
        0 <= min_part_index(s) < s.len(),
    decreases s.len(),
{
    if s.len() > 1 {
        lemma_min_part_index_bounds(s.drop_last());
    }
}

/// The entries in chapter order (selection by smallest part first).
pub open spec fn sort_parts(s: Seq<ScoredChapter>) -> Seq<ScoredChapter>
    decreases s.len(),
{
    if s.len() == 0 {
        s
    } else {
        let m = min_part_index(s);
        proof {
            lemma_min_part_index_bounds(s);
        }
        seq![s[m]] + sort_parts(s.remove(m))
    }
}

/// Ids of a sequence of chapters.
pub open spec fn ids_of(s: Seq<ScoredChapter>) -> Seq<u128> {
    s.map_values(|c: ScoredChapter| c.id)
}

/// The canonical chapters of one slot, given the competing bundles: a split
/// bundle contributes its best release of every part, in chapter order; any other
/// bundle its last highest-scored entry.
pub open spec fn select_best_spec(bs: Seq<BundleView>) -> Seq<u128> {
    let f = finalists(bs);
    if f.len() == 0 {
        Seq::empty()
    } else {
        let b = bs[f[0] as int];
        if b.bundle_type == BundleType::Split {
            ids_of(sort_parts(best_per_part(b.entries)))
        } else {
            seq![b.entries[last_max_index(b.entries)].id]
        }
    }
}

/// The chosen bundle has an entry to return.
pub open spec fn selection_defined(bs: Seq<BundleView>) -> bool {
    let f = finalists(bs);
    f.len() > 0 ==> {
        let b = bs[f[0] as int];
        b.bundle_type == BundleType::Split || b.entries.len() > 0
    }
}

fn max_score_exec(s: &[ScoredChapter]) -> (r: i32)
    ensures
        r == max_score(s@),
{
    let mut m: i32 = i32::MIN;
    let mut i: usize = 0;
    while i < s.len()
        invariant
            i <= s@.len(),
            m == max_score(s@.take(i as int)),
        decreases s.len() - i,
    {
        assert(s@.take(i + 1).drop_last() =~= s@.take(i as int));
        if s[i].score > m {
            m = s[i].score;
        }
        i = i + 1;
    }
    assert(s@.take(s@.len() as int) =~= s@);
    m
}

proof fn lemma_max_score_bounds(s: Seq<ScoredChapter>)
    ensures
        i32::MIN <= max_score(s) <= i32::MAX,
    decreases s.len(),
{
    if s.len() > 0 {
        lemma_max_score_bounds(s.drop_last());
    }
}

fn last_max_index_exec(s: &[ScoredChapter]) -> (r: usize)
    requires
        s@.len() > 0,
    ensures
        r == last_max_index(s@),
        r < s@.len(),
{
    let mut j: usize = 0;
    let mut i: usize = 1;
    while i < s.len()
        invariant
            1 <= i <= s@.len(),
            j < i,
            j == last_max_index(s@.take(i as int)),
        decreases s.len() - i,
    {
        assert(s@.take(i + 1).drop_last() =~= s@.take(i as int));
        assert(s@.take(i as int)[j as int] == s@[j as int]);
        if s[i].score >= s[j].score {
            j = i;
        }
        i = i + 1;
    }
    assert(s@.take(s@.len() as int) =~= s@);
    j
}

proof fn lemma_find_part_some(p: Seq<ScoredChapter>, e: ScoredChapter)
    ensures
        match find_part(p, e) {
            Some(j) => 0 <= j < p.len() && same_part(p[j], e) && forall|k: int| 0 <= k < j ==> !same_part(#[trigger] p[k], e),
            None => forall|k: int| 0 <= k < p.len() ==> !same_part(#[trigger] p[k], e),
        },
    decreases p.len(),
{
    if p.len() > 0 {
        lemma_find_part_some(p.drop_last(), e);
        match find_part(p.drop_last(), e) {
            Some(j) => {
                assert(p.drop_last()[j] == p[j]);
                assert forall|k: int| 0 <= k < j implies !same_part(#[trigger] p[k], e) by {
                    assert(p.drop_last()[k] == p[k]);
                }
            },
            None => {
                assert forall|k: int| 0 <= k < p.len() - 1 implies !same_part(#[trigger] p[k], e) by {
                    assert(p.drop_last()[k] == p[k]);
                }
            },
        }
    }
}

fn find_part_exec(p: &Vec<ScoredChapter>, e: &ScoredChapter) -> (r: Option<usize>)
    ensures
        match find_part(p@, *e) {
            Some(j) => r is Some && r.unwrap() as int == j,
            None => r is None,
        },
{
    let mut i: usize = 0;
    while i < p.len()
        invariant
            i <= p@.len(),
            forall|k: int| 0 <= k < i ==> !same_part(#[trigger] p@[k], *e),
        decreases p.len() - i,
    {
        if p[i].chapter_base == e.chapter_base && p[i].chapter_variant == e.chapter_variant {
            proof {
                lemma_find_part_some(p@, *e);
                match find_part(p@, *e) {
                    Some(j) => {
                        if j < i { assert(!same_part(p@[j], *e)); }
                        if j > i { assert(same_part(p@[i as int], *e)); }
                    },
                    None => { assert(same_part(p@[i as int], *e)); },
                }
            }
            return Some(i);
        }
        i = i + 1;
    }
    proof {
        lemma_find_part_some(p@, *e);
        match find_part(p@, *e) {
            Some(j) => {
                assert(!same_part(p@[j], *e));
            },
            None => {},
        }
    }
    None
}

fn best_per_part_exec(s: &[ScoredChapter]) -> (r: Vec<ScoredChapter>)
    ensures
        r@ == best_per_part(s@),
{
    let mut p: Vec<ScoredChapter> = Vec::new();
    let mut i: usize = 0;
    while i < s.len()
        invariant
            i <= s@.len(),
            p@ == best_per_part(s@.take(i as int)),
        decreases s.len() - i,
    {
        assert(s@.take(i + 1).drop_last() =~= s@.take(i as int));
        assert(s@.take(i + 1).last() == s@[i as int]);
        let e = &s[i];
        let ghost prev = p@;
        assert(*e == s@[i as int]);
        proof {
            lemma_find_part_some(p@, *e);
            assert(best_per_part(s@.take(i + 1)) == match find_part(prev, s@[i as int]) {
                Some(j) => if s@[i as int].score > prev[j].score {
                    prev.update(j, s@[i as int])
                } else {
                    prev
                },
                None => prev.push(s@[i as int]),
            });
        }
        match find_part_exec(&p, e) {
            Some(j) => {
                assert(find_part(prev, s@[i as int]) == Some(j as int));
                if e.score > p[j].score {
                    let c = e.copy();
                    p.set(j, c);
                    assert(p@ == prev.update(j as int, s@[i as int]));
                } else {
                    assert(p@ == prev);
                }
            },
            None => {
                assert(find_part(prev, s@[i as int]) is None);
                p.push(e.copy());
                assert(p@ == prev.push(s@[i as int]));
            },
        }
        assert(p@ == best_per_part(s@.take(i + 1)));
        i = i + 1;
    }
    assert(s@.take(s@.len() as int) =~= s@);
    p
}

fn part_lt_exec(a: &ScoredChapter, b: &ScoredChapter) -> (r: bool)
    ensures
        r == part_lt(*a, *b),
{
    a.chapter_base < b.chapter_base || (a.chapter_base == b.chapter_base && a.chapter_variant < b.chapter_variant)
}

fn min_part_index_exec(s: &Vec<ScoredChapter>) -> (r: usize)
    requires
        s@.len() > 0,
    ensures
        r == min_part_index(s@),
        r < s@.len(),
{
    let mut j: usize = 0;
    let mut i: usize = 1;
    while i < s.len()
        invariant
            1 <= i <= s@.len(),
            j < i,
            j == min_part_index(s@.take(i as int)),
        decreases s.len() - i,
    {
        assert(s@.take(i + 1).drop_last() =~= s@.take(i as int));
        assert(s@.take(i as int)[j as int] == s@[j as int]);
        if part_lt_exec(&s[i], &s[j]) {
            j = i;
        }
        i = i + 1;
    }
    assert(s@.take(s@.len() as int) =~= s@);
    j
}

fn sort_parts_ids(s: Vec<ScoredChapter>) -> (r: Vec<u128>)
    ensures
        r@ == ids_of(sort_parts(s@)),
{
    let ghost orig = s@;
    let mut rest = s;
    let mut out: Vec<u128> = Vec::new();
    assert(ids_of(Seq::<ScoredChapter>::empty()) =~= Seq::<u128>::empty());
    while rest.len() > 0
        invariant
            out@ + ids_of(sort_parts(rest@)) == ids_of(sort_parts(orig)),
        decreases rest.len(),
    {
        let m = min_part_index_exec(&rest);
        let ghost before = rest@;
        let c = rest.remove(m);
        proof {
            assert(sort_parts(before) == seq![before[m as int]] + sort_parts(before.remove(m as int)));
            assert(rest@ == before.remove(m as int));
            assert(ids_of(seq![c] + sort_parts(rest@)) =~= seq![c.id] + ids_of(sort_parts(rest@)));
        }
        out.push(c.id);
    }
    assert(sort_parts(rest@) =~= Seq::<ScoredChapter>::empty());
    assert(out@ + ids_of(sort_parts(rest@)) =~= out@);
    out
}

/// Chooses the canonical chapters of one slot among the bundles that compete for it.
pub fn select_best_bundle(bundles: &[ProviderBundle]) -> (r: Vec<u128>)
    requires
        selection_defined(bundle_views(bundles@)),
    ensures
        r@ == select_best_spec(bundle_views(bundles@)),
{
    let ghost bs = bundle_views(bundles@);
    if bundles.len() == 0 {
        proof {
            assert(Seq::new(0, |i: int| i as usize) =~= Seq::<usize>::empty());
            reveal_with_fuel(Seq::filter, 1);
        }
        return Vec::new();
    }
    // Step 1: scores
    let mut best: i32 = i32::MIN;
    let mut i: usize = 0;
    while i < bundles.len()
        invariant
            i <= bs.len(),
            bs == bundle_views(bundles@),
            best == best_bundle_score(bs.take(i as int)),
        decreases bundles.len() - i,
    {
        assert(bs.take(i + 1).drop_last() =~= bs.take(i as int));
        let sc = max_score_exec(bundles[i].entries.as_slice());
        if sc > best {
            best = sc;
        }
        i = i + 1;
    }
    assert(bs.take(bs.len() as int) =~= bs);
    let ghost range = Seq::new(bs.len(), |k: int| k as usize);
    let ghost pred = |k: usize| bundle_score(bs[k as int]) == best_bundle_score(bs);
    let mut top: Vec<usize> = Vec::new();
    let mut k: usize = 0;
    while k < bundles.len()
        invariant
            k <= bs.len(),
            bs == bundle_views(bundles@),
            best == best_bundle_score(bs),
            range == Seq::new(bs.len(), |k: int| k as usize),
            pred == (|k: usize| bundle_score(bs[k as int]) == best_bundle_score(bs)),
            top@ == range.take(k as int).filter(pred),
            forall|m: int| 0 <= m < top@.len() ==> top@[m] < bs.len(),
        decreases bundles.len() - k,
    {
        assert(range.take(k + 1) =~= range.take(k as int).push(k));
        proof { range.take(k as int).lemma_filter_push(k, pred); }
        let sc = max_score_exec(bundles[k].entries.as_slice());
        if sc == best {
            top.push(k);
        }
        k = k + 1;
    }
    assert(range.take(bs.len() as int) =~= range);
    assert(top@ == top_scored(bs));
    // Step 2: coverage
    let chosen: Vec<usize> = if top.len() > 1 {
        let mut best_cov: usize = 0;
        let mut kept: Vec<usize> = Vec::new();
        let mut j: usize = 0;
        while j < top.len()
            invariant
                j <= top@.len(),
                bs == bundle_views(bundles@),
                forall|m: int| 0 <= m < top@.len() ==> top@[m] < bs.len(),
                forall|m: int| 0 <= m < kept@.len() ==> kept@[m] < bs.len(),
                (best_cov as int, kept@) == coverage_fold(bs, top@.take(j as int)),
            decreases top.len() - j,
        {
            assert(top@.take(j + 1).drop_last() =~= top@.take(j as int));
            let t = top[j];
            let b = &bundles[t];
            if b.entries.len() > 1 && b.coverage > best_cov {
                best_cov = b.coverage;
                kept = Vec::new();
                kept.push(t);
                assert(kept@ =~= seq![t]);
            } else if b.entries.len() == 1 || b.coverage == best_cov {
                kept.push(t);
            }
            j = j + 1;
        }
        assert(top@.take(top@.len() as int) =~= top@);
        kept
    } else {
        top
    };
    assert(chosen@ == finalists(bs));
    if chosen.len() == 0 {
        return Vec::new();
    }
    let sel = &bundles[chosen[0]];
    if sel.bundle_type == BundleType::Split {
        let parts = best_per_part_exec(sel.entries.as_slice());
        sort_parts_ids(parts)
    } else {
        let m = last_max_index_exec(sel.entries.as_slice());
        let mut out: Vec<u128> = Vec::new();
        out.push(sel.entries[m].id);
        assert(out@ =~= seq![sel.entries@[m as int].id]);
        out
    }
}

// ---------------------------------------------------------------------------
// Grouping chapters into bundles
// ---------------------------------------------------------------------------

/// A bundle key: slot, provider and whether the chapter is a full chapter.
pub type BundleKey = (i64, Option<u32>, bool);

/// A bundle key with its slot as a mathematical integer.
pub open spec fn key_view(k: BundleKey) -> (int, Option<u32>, bool) {
    (k.0 as int, k.1, k.2)
}

/// The bundle a chapter belongs to: a full chapter and split parts of the same
/// provider at the same slot are different bundles.
pub open spec fn chapter_key(c: ScoredChapter, all: Seq<ScoredChapter>) -> (int, Option<u32>, bool) {
    (slot_spec(c.chapter_base as int, c.chapter_variant as int, all), c.provider, c.chapter_variant == 0)
}

/// The distinct elements of `s`, in order of first appearance.
pub open spec fn distinct_firsts<K>(s: Seq<K>) -> Seq<K>
    decreases s.len(),
{
    if s.len() == 0 {
        s
    } else {
        let p = distinct_firsts(s.drop_last());
        if p.contains(s.last()) {
            p
        } else {
            p.push(s.last())
        }
    }
}

/// The bundle keys of the chapters, in order of first appearance.
pub open spec fn bundle_keys(all: Seq<ScoredChapter>) -> Seq<(int, Option<u32>, bool)> {
    distinct_firsts(all.map_values(|c: ScoredChapter| chapter_key(c, all)))
}

/// The chapters of one bundle, in their original order.
pub open spec fn bundle_entries(all: Seq<ScoredChapter>, k: (int, Option<u32>, bool)) -> Seq<ScoredChapter> {
    all.filter(|c: ScoredChapter| chapter_key(c, all) == k)
}

/// The bundle with key `k`, classified against all of the manga's chapters.
pub open spec fn make_bundle(all: Seq<ScoredChapter>, all_raw: Seq<ScoredChapter>, k: (int, Option<u32>, bool)) -> BundleView {
    let e = bundle_entries(all, k);
    let t = bundle_type_spec(e, all_raw);
    BundleView { entries: e, bundle_type: t, coverage: coverage_spec(e, t) }
}

/// The slots in order of first appearance.
pub open spec fn slots_of(all: Seq<ScoredChapter>) -> Seq<int> {
    distinct_firsts(bundle_keys(all).map_values(|k: (int, Option<u32>, bool)| k.0))
}

/// Keys of bundles at `slot`.
pub open spec fn at_slot(slot: int) -> spec_fn((int, Option<u32>, bool)) -> bool {
    |k: (int, Option<u32>, bool)| k.0 == slot
}

/// Builds the bundle of a key.
pub open spec fn bundle_maker(all: Seq<ScoredChapter>, all_raw: Seq<ScoredChapter>) -> spec_fn(
    (int, Option<u32>, bool),
) -> BundleView {
    |k: (int, Option<u32>, bool)| make_bundle(all, all_raw, k)
}

/// The bundles competing for `slot`.
pub open spec fn slot_bundles(all: Seq<ScoredChapter>, all_raw: Seq<ScoredChapter>, slot: int) -> Seq<BundleView> {
    bundle_keys(all).filter(at_slot(slot)).map_values(bundle_maker(all, all_raw))
}

/// The winners of the first `n` slots, slot after slot.
pub open spec fn winners_upto(all: Seq<ScoredChapter>, all_raw: Seq<ScoredChapter>, n: int) -> Seq<u128>
    decreases n,
{
    if n <= 0 {
        Seq::empty()
    } else {
        winners_upto(all, all_raw, n - 1) + select_best_spec(slot_bundles(all, all_raw, slots_of(all)[n - 1]))
    }
}

/// The automatically selected canonical chapters of every slot.
pub open spec fn canonical_winners(all: Seq<ScoredChapter>, all_raw: Seq<ScoredChapter>) -> Seq<u128> {
    winners_upto(all, all_raw, slots_of(all).len() as int)
}

pub proof fn lemma_distinct_firsts_from<K>(s: Seq<K>, i: int)
    requires
        0 <= i < distinct_firsts(s).len(),
    ensures
        s.contains(distinct_firsts(s)[i]),
    decreases s.len(),
{
    if s.len() > 0 {
        let p = distinct_firsts(s.drop_last());
        if i < p.len() {
            lemma_distinct_firsts_from(s.drop_last(), i);
            let x = p[i];
            let j = choose|j: int| 0 <= j < s.drop_last().len() && s.drop_last()[j] == x;
            assert(s[j] == x);
        } else {
            assert(s[s.len() - 1] == s.last());
        }
    }
}

proof fn lemma_coverage_fold_from(bs: Seq<BundleView>, idx: Seq<usize>, m: int)
    requires
        0 <= m < coverage_fold(bs, idx).1.len(),
    ensures
        idx.contains(coverage_fold(bs, idx).1[m]),
    decreases idx.len(),
{
    if idx.len() > 0 {
        let (best, kept) = coverage_fold(bs, idx.drop_last());
        let i = idx.last();
        assert(idx[idx.len() - 1] == i);
        let b = bs[i as int];
        if b.entries.len() > 1 && b.coverage > best {
        } else if b.entries.len() == 1 || b.coverage == best {
            if m < kept.len() {
                lemma_coverage_fold_from(bs, idx.drop_last(), m);
                let x = kept[m];
                let j = choose|j: int| 0 <= j < idx.drop_last().len() && idx.drop_last()[j] == x;
                assert(idx[j] == x);
            }
        } else {
            lemma_coverage_fold_from(bs, idx.drop_last(), m);
            let x = kept[m];
            let j = choose|j: int| 0 <= j < idx.drop_last().len() && idx.drop_last()[j] == x;
            assert(idx[j] == x);
        }
    }
}

/// When every bundle has entries, the selection is defined.
pub proof fn lemma_selection_defined(bs: Seq<BundleView>)
    requires
        forall|i: int| 0 <= i < bs.len() ==> (#[trigger] bs[i]).entries.len() > 0,
    ensures
        selection_defined(bs),
{
    let f = finalists(bs);
    let range = Seq::new(bs.len(), |k: int| k as usize);
    let pred = |i: usize| bundle_score(bs[i as int]) == best_bundle_score(bs);
    let s1 = top_scored(bs);
    assert(s1 == range.filter(pred));
    if f.len() > 0 {
        let x = f[0];
        if s1.len() > 1 {
            lemma_coverage_fold_from(bs, s1, 0);
        }
        assert(s1.contains(x));
        range.lemma_filter_contains_rev(pred, x);
        let j = choose|j: int| 0 <= j < range.len() && range[j] == x;
        assert(x < bs.len());
    }
}

proof fn lemma_best_per_part_from(s: Seq<ScoredChapter>, k: int)
    requires
        0 <= k < best_per_part(s).len(),
    ensures
        s.contains(best_per_part(s)[k]),
    decreases s.len(),
{
    if s.len() > 0 {
        let p = best_per_part(s.drop_last());
        let e = s.last();
        assert(s[s.len() - 1] == e);
        match find_part(p, e) {
            Some(j) => {
                lemma_find_part_some(p, e);
                if !(k == j && e.score > p[j].score) {
                    lemma_best_per_part_from(s.drop_last(), k);
                    let x = p[k];
                    let m = choose|m: int| 0 <= m < s.drop_last().len() && s.drop_last()[m] == x;
                    assert(s[m] == x);
                }
            },
            None => {
                if k < p.len() {
                    lemma_best_per_part_from(s.drop_last(), k);
                    let x = p[k];
                    let m = choose|m: int| 0 <= m < s.drop_last().len() && s.drop_last()[m] == x;
                    assert(s[m] == x);
                }
            },
        }
    }
}

proof fn lemma_sort_parts_from(s: Seq<ScoredChapter>, k: int)
    requires
        0 <= k < sort_parts(s).len(),
    ensures
        s.contains(sort_parts(s)[k]),
    decreases s.len(),
{
    if s.len() > 0 {
        let m = min_part_index(s);
        lemma_min_part_index_bounds(s);
        if k > 0 {
            let r = s.remove(m);
            assert(sort_parts(s)[k] == sort_parts(r)[k - 1]);
            lemma_sort_parts_from(r, k - 1);
            let x = sort_parts(r)[k - 1];
            let j = choose|j: int| 0 <= j < r.len() && r[j] == x;
            if j < m {
                assert(s[j] == x);
            } else {
                assert(s[j + 1] == x);
            }
        } else {
            assert(sort_parts(s)[0] == s[m]);
        }
    }
}

proof fn lemma_best_per_part_covers(s: Seq<ScoredChapter>)
    ensures
        forall|i: int| #![trigger s[i]] 0 <= i < s.len() ==> exists|k: int|
            0 <= k < best_per_part(s).len() && same_part(#[trigger] best_per_part(s)[k], s[i])
                && best_per_part(s)[k].score >= s[i].score,
    decreases s.len(),
{
    if s.len() > 0 {
        let t = s.drop_last();
        lemma_best_per_part_covers(t);
        let p = best_per_part(t);
        let e = s.last();
        let r = best_per_part(s);
        lemma_find_part_some(p, e);
        match find_part(p, e) {
            Some(j) => {
                if e.score > p[j].score {
                    assert(r == p.update(j, e));
                    assert forall|i: int| #![trigger s[i]] 0 <= i < s.len() implies exists|k: int|
                        0 <= k < r.len() && same_part(#[trigger] r[k], s[i]) && r[k].score >= s[i].score by {
                        if i == s.len() - 1 {
                            assert(same_part(r[j], s[i]));
                        } else {
                            assert(s[i] == t[i]);
                            let k = choose|k: int| 0 <= k < p.len() && same_part(#[trigger] p[k], t[i]) && p[k].score >= t[i].score;
                            if k == j {
                                assert(same_part(r[j], s[i]));
                            } else {
                                assert(r[k] == p[k]);
                            }
                        }
                    }
                } else {
                    assert(r == p);
                    assert forall|i: int| #![trigger s[i]] 0 <= i < s.len() implies exists|k: int|
                        0 <= k < r.len() && same_part(#[trigger] r[k], s[i]) && r[k].score >= s[i].score by {
                        if i == s.len() - 1 {
                            assert(same_part(r[j], s[i]));
                        } else {
                            assert(s[i] == t[i]);
                        }
                    }
                }
            },
            None => {
                assert(r == p.push(e));
                assert forall|i: int| #![trigger s[i]] 0 <= i < s.len() implies exists|k: int|
                    0 <= k < r.len() && same_part(#[trigger] r[k], s[i]) && r[k].score >= s[i].score by {
                    if i == s.len() - 1 {
                        assert(same_part(r[p.len() as int], s[i]));
                    } else {
                        assert(s[i] == t[i]);
                        let k = choose|k: int| 0 <= k < p.len() && same_part(#[trigger] p[k], t[i]) && p[k].score >= t[i].score;
                        assert(r[k] == p[k]);
                    }
                }
            },
        }
    }
}

proof fn lemma_sort_parts_keeps(s: Seq<ScoredChapter>, x: ScoredChapter)
    requires
        s.contains(x),
    ensures
        sort_parts(s).contains(x),
    decreases s.len(),
{
    let m = min_part_index(s);
    lemma_min_part_index_bounds(s);
    let r = s.remove(m);
    if s[m] == x {
        assert(sort_parts(s)[0] == x);
    } else {
        let i = choose|i: int| 0 <= i < s.len() && s[i] == x;
        if i < m {
            assert(r[i] == x);
        } else {
            assert(r[i - 1] == x);
        }
        lemma_sort_parts_keeps(r, x);
        let k = choose|k: int| 0 <= k < sort_parts(r).len() && sort_parts(r)[k] == x;
        assert(sort_parts(s)[k + 1] == x);
    }
}

/// Some entry of `s` of `e`'s part, scoring at least as much as `e`, has its id in `r`.
pub open spec fn part_best_kept(s: Seq<ScoredChapter>, r: Seq<u128>, e: ScoredChapter) -> bool {
    exists|k: int, x: int|
        #![trigger r[k], s[x]]
        0 <= k < r.len() && 0 <= x < s.len() && r[k] == s[x].id && s[x].chapter_base == e.chapter_base
            && s[x].chapter_variant == e.chapter_variant && s[x].score >= e.score
}

/// `id` is the id of an entry of `s`.
pub open spec fn is_entry_id(s: Seq<ScoredChapter>, id: u128) -> bool {
    exists|x: int| 0 <= x < s.len() && #[trigger] s[x].id == id
}

proof fn lemma_ids_complete(s: Seq<ScoredChapter>, p: Seq<ScoredChapter>, q: Seq<ScoredChapter>, r: Seq<u128>)
    requires
        forall|i: int| #![trigger s[i]] 0 <= i < s.len() ==> exists|j: int|
            0 <= j < p.len() && same_part(#[trigger] p[j], s[i]) && p[j].score >= s[i].score,
        forall|j: int| 0 <= j < p.len() ==> s.contains(#[trigger] p[j]),
        forall|j: int| 0 <= j < p.len() ==> q.contains(#[trigger] p[j]),
        r.len() == q.len(),
        forall|k: int| 0 <= k < q.len() ==> #[trigger] r[k] == q[k].id,
    ensures
        forall|i: int| 0 <= i < s.len() ==> part_best_kept(s, r, #[trigger] s[i]),
{
    assert forall|i: int| 0 <= i < s.len() implies part_best_kept(s, r, #[trigger] s[i]) by {
        let j = choose|j: int| 0 <= j < p.len() && same_part(#[trigger] p[j], s[i]) && p[j].score >= s[i].score;
        assert(s.contains(p[j]));
        let x = choose|x: int| 0 <= x < s.len() && s[x] == p[j];
        assert(q.contains(p[j]));
        let k = choose|k: int| 0 <= k < q.len() && q[k] == p[j];
        assert(r[k] == s[x].id);
    }
}

proof fn lemma_ids_sound(s: Seq<ScoredChapter>, p: Seq<ScoredChapter>, q: Seq<ScoredChapter>, r: Seq<u128>)
    requires
        forall|j: int| 0 <= j < p.len() ==> s.contains(#[trigger] p[j]),
        forall|k: int| 0 <= k < q.len() ==> p.contains(#[trigger] q[k]),
        r.len() == q.len(),
        forall|k: int| 0 <= k < q.len() ==> #[trigger] r[k] == q[k].id,
    ensures
        forall|k: int| 0 <= k < r.len() ==> is_entry_id(s, #[trigger] r[k]),
{
    assert forall|k: int| 0 <= k < r.len() implies is_entry_id(s, #[trigger] r[k]) by {
        assert(p.contains(q[k]));
        let j = choose|j: int| 0 <= j < p.len() && p[j] == q[k];
        assert(s.contains(p[j]));
        let x = choose|x: int| 0 <= x < s.len() && s[x] == p[j];
        assert(r[k] == s[x].id);
    }
}

proof fn lemma_parts_from_entries(s: Seq<ScoredChapter>)
    ensures
        forall|j: int| 0 <= j < best_per_part(s).len() ==> s.contains(#[trigger] best_per_part(s)[j]),
{
    assert forall|j: int| 0 <= j < best_per_part(s).len() implies s.contains(#[trigger] best_per_part(s)[j]) by {
        lemma_best_per_part_from(s, j);
    }
}

proof fn lemma_parts_all_sorted(p: Seq<ScoredChapter>)
    ensures
        forall|j: int| 0 <= j < p.len() ==> sort_parts(p).contains(#[trigger] p[j]),
{
    assert forall|j: int| 0 <= j < p.len() implies sort_parts(p).contains(#[trigger] p[j]) by {
        assert(p.contains(p[j]));
        lemma_sort_parts_keeps(p, p[j]);
    }
}

proof fn lemma_sorted_from_parts(p: Seq<ScoredChapter>)
    ensures
        forall|k: int| 0 <= k < sort_parts(p).len() ==> p.contains(#[trigger] sort_parts(p)[k]),
{
    assert forall|k: int| 0 <= k < sort_parts(p).len() implies p.contains(#[trigger] sort_parts(p)[k]) by {
        lemma_sort_parts_from(p, k);
    }
}

/// `r` is the ids of entries of `s`, one per part, in strictly increasing
/// chapter order (base, then variant).
pub open spec fn ids_in_part_order(s: Seq<ScoredChapter>, r: Seq<u128>) -> bool {
    exists|w: Seq<ScoredChapter>| #[trigger] w.len() == r.len()
        && (forall|k: int| 0 <= k < w.len() ==> #[trigger] w[k].id == r[k] && s.contains(w[k]))
        && (forall|a: int, b: int| 0 <= a < b < w.len() ==>
            (#[trigger] w[a]).chapter_base < (#[trigger] w[b]).chapter_base
            || (w[a].chapter_base == w[b].chapter_base && w[a].chapter_variant < w[b].chapter_variant))
}

/// No two entries of the same part.
pub open spec fn parts_distinct(s: Seq<ScoredChapter>) -> bool {
    forall|a: int, b: int| 0 <= a < b < s.len() ==> !same_part(#[trigger] s[a], #[trigger] s[b])
}

proof fn lemma_best_per_part_distinct(s: Seq<ScoredChapter>)
    ensures
        parts_distinct(best_per_part(s)),
    decreases s.len(),
{
    if s.len() > 0 {
        let t = s.drop_last();
        lemma_best_per_part_distinct(t);
        let p = best_per_part(t);
        let e = s.last();
        let r = best_per_part(s);
        lemma_find_part_some(p, e);
        match find_part(p, e) {
            Some(j) => {
                if e.score > p[j].score {
                    assert(r == p.update(j, e));
                    assert forall|a: int, b: int| 0 <= a < b < r.len() implies !same_part(#[trigger] r[a], #[trigger] r[b]) by {
                        assert(!same_part(p[a], p[b]));
                    }
                } else {
                    assert(r == p);
                }
            },
            None => {
                assert(r == p.push(e));
                assert forall|a: int, b: int| 0 <= a < b < r.len() implies !same_part(#[trigger] r[a], #[trigger] r[b]) by {
                    if b == p.len() {
                        assert(r[a] == p[a]);
                        assert(!same_part(p[a], e));
                    } else {
                        assert(!same_part(p[a], p[b]));
                    }
                }
            },
        }
    }
}

proof fn lemma_min_part_is_min(s: Seq<ScoredChapter>)
    requires
        s.len() > 0,
    ensures
        forall|i: int| 0 <= i < s.len() ==> !part_lt(#[trigger] s[i], s[min_part_index(s)]),
    decreases s.len(),
{
    if s.len() > 1 {
        let t = s.drop_last();
        lemma_min_part_is_min(t);
        lemma_min_part_index_bounds(t);
        let j = min_part_index(t);
        assert(s[j] == t[j]);
        assert forall|i: int| 0 <= i < s.len() implies !part_lt(#[trigger] s[i], s[min_part_index(s)]) by {
            if i < s.len() - 1 {
                assert(s[i] == t[i]);
            }
        }
    }
}

proof fn lemma_sort_parts_ordered(s: Seq<ScoredChapter>)
    ensures
        sort_parts(s).len() == s.len(),
        forall|a: int, b: int| 0 <= a < b < sort_parts(s).len() ==> !part_lt(#[trigger] sort_parts(s)[b], #[trigger] sort_parts(s)[a]),
        parts_distinct(s) ==> parts_distinct(sort_parts(s)),
    decreases s.len(),
{
    if s.len() > 0 {
        let m = min_part_index(s);
        lemma_min_part_index_bounds(s);
        lemma_min_part_is_min(s);
        let rest = s.remove(m);
        lemma_sort_parts_ordered(rest);
        let q = sort_parts(s);
        let qr = sort_parts(rest);
        assert(q == seq![s[m]] + qr);
        assert forall|k: int| 0 <= k < qr.len() implies !part_lt(#[trigger] qr[k], s[m]) by {
            lemma_sort_parts_from(rest, k);
            let i = choose|i: int| 0 <= i < rest.len() && rest[i] == qr[k];
            if i < m { assert(s[i] == rest[i]); } else { assert(s[i + 1] == rest[i]); }
        }
        assert forall|a: int, b: int| 0 <= a < b < q.len() implies !part_lt(#[trigger] q[b], #[trigger] q[a]) by {
            if a == 0 {
                assert(q[b] == qr[b - 1]);
            } else {
                assert(q[a] == qr[a - 1] && q[b] == qr[b - 1]);
            }
        }
        if parts_distinct(s) {
            assert(parts_distinct(rest)) by {
                assert forall|a: int, b: int| 0 <= a < b < rest.len() implies !same_part(#[trigger] rest[a], #[trigger] rest[b]) by {
                    if b < m {
                        assert(rest[a] == s[a] && rest[b] == s[b]);
                    } else if a < m {
                        assert(rest[a] == s[a] && rest[b] == s[b + 1]);
                    } else {
                        assert(rest[a] == s[a + 1] && rest[b] == s[b + 1]);
                    }
                }
            }
            assert forall|k: int| 0 <= k < qr.len() implies !same_part(s[m], #[trigger] qr[k]) by {
                lemma_sort_parts_from(rest, k);
                let i = choose|i: int| 0 <= i < rest.len() && rest[i] == qr[k];
                if i < m {
                    assert(rest[i] == s[i]);
                    assert(!same_part(s[i], s[m]));
                } else {
                    assert(rest[i] == s[i + 1]);
                    assert(!same_part(s[m], s[i + 1]));
                }
            }
            assert forall|a: int, b: int| 0 <= a < b < q.len() implies !same_part(#[trigger] q[a], #[trigger] q[b]) by {
                if a == 0 {
                    assert(q[b] == qr[b - 1]);
                } else {
                    assert(q[a] == qr[a - 1] && q[b] == qr[b - 1]);
                }
            }
        }
    }
}

proof fn lemma_split_ids_ordered(s: Seq<ScoredChapter>)
    ensures
        ids_in_part_order(s, ids_of(sort_parts(best_per_part(s)))),
{
    let p = best_per_part(s);
    let q = sort_parts(p);
    let r = ids_of(q);
    lemma_best_per_part_distinct(s);
    lemma_sort_parts_ordered(p);
    lemma_parts_from_entries(s);
    assert forall|k: int| 0 <= k < q.len() implies #[trigger] q[k].id == r[k] && s.contains(q[k]) by {
        lemma_sort_parts_from(p, k);
        let j = choose|j: int| 0 <= j < p.len() && p[j] == q[k];
        assert(s.contains(p[j]));
    }
    assert forall|a: int, b: int| 0 <= a < b < q.len() implies
        (#[trigger] q[a]).chapter_base < (#[trigger] q[b]).chapter_base
            || (q[a].chapter_base == q[b].chapter_base && q[a].chapter_variant < q[b].chapter_variant) by {
        assert(!part_lt(q[b], q[a]));
        assert(!same_part(q[a], q[b]));
    }
    assert(q.len() == r.len());
}

/// When the chosen bundle is a split one, each of its parts is represented by
/// a release with that part's best score: for every entry of the bundle the
/// selection holds the id of an entry of the same part scoring at least as
/// much. Every id selected is that of an entry of the chosen bundle, one per
/// part, in chapter order.
pub proof fn law_split_selection_takes_best_of_each_part(bs: Seq<BundleView>)
    requires
        finalists(bs).len() > 0,
        bs[finalists(bs)[0] as int].bundle_type == BundleType::Split,
    ensures
        ({
            let b = bs[finalists(bs)[0] as int];
            let r = select_best_spec(bs);
            &&& forall|i: int| 0 <= i < b.entries.len() ==> part_best_kept(b.entries, r, #[trigger] b.entries[i])
            &&& forall|k: int| 0 <= k < r.len() ==> is_entry_id(b.entries, #[trigger] r[k])
            &&& ids_in_part_order(b.entries, r)
        }),
{
    let b = bs[finalists(bs)[0] as int];
    let s = b.entries;
    let p = best_per_part(s);
    let q = sort_parts(p);
    let r = select_best_spec(bs);
    assert(r == ids_of(q));
    assert(r.len() == q.len());
    assert forall|k: int| 0 <= k < q.len() implies #[trigger] r[k] == q[k].id by {}
    assert(forall|i: int| 0 <= i < s.len() ==> part_best_kept(s, r, #[trigger] s[i])) by {
        lemma_best_per_part_covers(s);
        lemma_parts_from_entries(s);
        lemma_parts_all_sorted(p);
        lemma_ids_complete(s, p, q, r);
    }
    assert(forall|k: int| 0 <= k < r.len() ==> is_entry_id(s, #[trigger] r[k])) by {
        lemma_parts_from_entries(s);
        lemma_sorted_from_parts(p);
        lemma_ids_sound(s, p, q, r);
    }
    lemma_split_ids_ordered(s);
}

proof fn lemma_last_max_index_bounds(s: Seq<ScoredChapter>)
    requires
        s.len() > 0,
    ensures
        0 <= last_max_index(s) < s.len(),
    decreases s.len(),
{
    if s.len() > 1 {
        lemma_last_max_index_bounds(s.drop_last());
    }
}

proof fn lemma_max_score_is_max(s: Seq<ScoredChapter>)
    ensures
        max_score(s) >= i32::MIN,
        forall|k: int| 0 <= k < s.len() ==> max_score(s) >= (#[trigger] s[k]).score,
        s.len() > 0 ==> s[last_max_index(s)].score == max_score(s),
    decreases s.len(),
{
    if s.len() > 0 {
        let t = s.drop_last();
        lemma_max_score_is_max(t);
        assert forall|k: int| 0 <= k < s.len() implies max_score(s) >= (#[trigger] s[k]).score by {
            if k < s.len() - 1 {
                assert(s[k] == t[k]);
            }
        }
        if s.len() > 1 {
            lemma_last_max_index_bounds(t);
            let j = last_max_index(t);
            assert(s[j] == t[j]);
        }
    }
}

proof fn lemma_best_bundle_score_is_best(bs: Seq<BundleView>)
    ensures
        forall|j: int| 0 <= j < bs.len() ==> best_bundle_score(bs) >= bundle_score(#[trigger] bs[j]),
        bs.len() > 0 ==> exists|j: int| 0 <= j < bs.len() && best_bundle_score(bs) == bundle_score(#[trigger] bs[j]),
    decreases bs.len(),
{
    if bs.len() > 0 {
        let t = bs.drop_last();
        lemma_best_bundle_score_is_best(t);
        lemma_max_score_is_max(bs.last().entries);
        assert forall|j: int| 0 <= j < bs.len() implies best_bundle_score(bs) >= bundle_score(#[trigger] bs[j]) by {
            if j < bs.len() - 1 {
                assert(bs[j] == t[j]);
            }
        }
        if bundle_score(bs.last()) >= best_bundle_score(t) {
            assert(best_bundle_score(bs) == bundle_score(bs[bs.len() - 1]));
        } else {
            let j = choose|j: int| 0 <= j < t.len() && best_bundle_score(t) == bundle_score(#[trigger] t[j]);
            assert(bs[j] == t[j]);
        }
    }
}

proof fn lemma_coverage_fold_nonempty(bs: Seq<BundleView>, idx: Seq<usize>)
    requires
        idx.len() > 0,
        forall|k: int| 0 <= k < idx.len() ==> bs[(#[trigger] idx[k]) as int].entries.len() > 0,
    ensures
        coverage_fold(bs, idx).1.len() > 0,
    decreases idx.len(),
{
    let t = idx.drop_last();
    let i = idx.last();
    assert(idx[idx.len() - 1] == i);
    let b = bs[i as int];
    assert(b.entries.len() > 0);
    let (best, kept) = coverage_fold(bs, t);
    if t.len() > 0 {
        assert forall|k: int| 0 <= k < t.len() implies bs[(#[trigger] t[k]) as int].entries.len() > 0 by {
            assert(t[k] == idx[k]);
        }
        lemma_coverage_fold_nonempty(bs, t);
        assert(kept.len() > 0);
    } else {
        assert(best == 0);
    }
    if b.entries.len() > 1 && b.coverage > best {
        assert(coverage_fold(bs, idx).1 == seq![i]);
    } else if b.entries.len() == 1 || b.coverage == best {
        assert(coverage_fold(bs, idx).1 == kept.push(i));
    } else {
        assert(coverage_fold(bs, idx).1 == kept);
        assert(t.len() > 0);
    }
}

/// The bundle chosen for a slot scores at least as high as every competing bundle,
/// and when it is not split, the one chapter it contributes is one of its entries
/// with its highest score.
pub proof fn law_chosen_bundle_scores_best(bs: Seq<BundleView>)
    requires
        0 < bs.len() <= usize::MAX,
        forall|i: int| 0 <= i < bs.len() ==> (#[trigger] bs[i]).entries.len() > 0,
    ensures
        finalists(bs).len() > 0,
        ({
            let w = bs[finalists(bs)[0] as int];
            &&& forall|j: int| 0 <= j < bs.len() ==> bundle_score(#[trigger] bs[j]) <= bundle_score(w)
            &&& w.bundle_type != BundleType::Split ==> {
                let k = last_max_index(w.entries);
                &&& 0 <= k < w.entries.len()
                &&& select_best_spec(bs) == seq![w.entries[k].id]
                &&& forall|m: int| 0 <= m < w.entries.len() ==> (#[trigger] w.entries[m]).score <= w.entries[k].score
                &&& forall|m: int| k < m < w.entries.len() ==> (#[trigger] w.entries[m]).score < w.entries[k].score
            }
        }),
{
    let range = Seq::new(bs.len(), |k: int| k as usize);
    let pred = |i: usize| bundle_score(bs[i as int]) == best_bundle_score(bs);
    let s1 = top_scored(bs);
    assert(s1 == range.filter(pred));
    lemma_best_bundle_score_is_best(bs);
    let j0 = choose|j: int| 0 <= j < bs.len() && best_bundle_score(bs) == bundle_score(#[trigger] bs[j]);
    assert(range[j0] == j0 as usize);
    assert(pred(range[j0]));
    range.lemma_filter_contains(pred, j0);
    assert(s1.len() > 0);
    assert forall|k: int| 0 <= k < s1.len() implies bs[(#[trigger] s1[k]) as int].entries.len() > 0 by {
        assert(s1.contains(s1[k]));
        range.lemma_filter_contains_rev(pred, s1[k]);
    }
    if s1.len() > 1 {
        lemma_coverage_fold_nonempty(bs, s1);
        lemma_coverage_fold_from(bs, s1, 0);
    }
    let f = finalists(bs);
    let x = f[0];
    assert(s1.contains(x));
    range.lemma_filter_contains_rev(pred, x);
    let p = choose|p: int| 0 <= p < s1.len() && s1[p] == x;
    range.lemma_filter_pred(pred, p);
    let w = bs[x as int];
    assert(bundle_score(w) == best_bundle_score(bs));
    lemma_max_score_is_max(w.entries);
    lemma_last_max_index_bounds(w.entries);
    lemma_last_max_is_last(w.entries);
}

proof fn lemma_last_max_is_last(s: Seq<ScoredChapter>)
    requires
        s.len() > 0,
    ensures
        forall|m: int| last_max_index(s) < m < s.len() ==> (#[trigger] s[m]).score < s[last_max_index(s)].score,
    decreases s.len(),
{
    if s.len() > 1 {
        let t = s.drop_last();
        lemma_last_max_is_last(t);
        lemma_last_max_index_bounds(t);
        let j = last_max_index(t);
        assert(s[j] == t[j]);
        assert forall|m: int| last_max_index(s) < m < s.len() implies (#[trigger] s[m]).score < s[last_max_index(s)].score by {
            if m < s.len() - 1 {
                assert(s[m] == t[m]);
            }
        }
    }
}

/// Bundles whose entries are all among `all`, and not empty.
pub open spec fn bundles_from(bs: Seq<BundleView>, all: Seq<ScoredChapter>) -> bool {
    forall|j: int| 0 <= j < bs.len() ==> {
        &&& (#[trigger] bs[j]).entries.len() > 0
        &&& forall|m: int| 0 <= m < bs[j].entries.len() ==> all.contains(#[trigger] bs[j].entries[m])
    }
}

proof fn lemma_select_best_from(bs: Seq<BundleView>, all: Seq<ScoredChapter>, x: int)
    requires
        bundles_from(bs, all),
        0 <= x < select_best_spec(bs).len(),
    ensures
        exists|i: int| 0 <= i < all.len() && all[i].id == select_best_spec(bs)[x],
{
    lemma_selection_defined(bs);
    let f = finalists(bs);
    let range = Seq::new(bs.len(), |k: int| k as usize);
    let pred = |i: usize| bundle_score(bs[i as int]) == best_bundle_score(bs);
    let s1 = top_scored(bs);
    assert(s1 == range.filter(pred));
    let fx = f[0];
    if s1.len() > 1 {
        lemma_coverage_fold_from(bs, s1, 0);
    }
    assert(s1.contains(fx));
    range.lemma_filter_contains_rev(pred, fx);
    let b = bs[fx as int];
    assert(b.entries.len() > 0);
    let e = if b.bundle_type == BundleType::Split {
        let bp = best_per_part(b.entries);
        let sp = sort_parts(bp);
        assert(select_best_spec(bs) == ids_of(sp));
        lemma_sort_parts_from(bp, x);
        let y = sp[x];
        let j = choose|j: int| 0 <= j < bp.len() && bp[j] == y;
        lemma_best_per_part_from(b.entries, j);
        let m = choose|m: int| 0 <= m < b.entries.len() && b.entries[m] == y;
        assert(all.contains(b.entries[m]));
        y
    } else {
        lemma_last_max_index_bounds(b.entries);
        let m = last_max_index(b.entries);
        assert(all.contains(b.entries[m]));
        b.entries[m]
    };
    assert(all.contains(e));
    assert(e.id == select_best_spec(bs)[x]);
}

proof fn lemma_slot_bundles_from(all: Seq<ScoredChapter>, all_raw: Seq<ScoredChapter>, slot: int)
    ensures
        bundles_from(slot_bundles(all, all_raw, slot), all),
{
    let keys = bundle_keys(all);
    let kf = keys.filter(at_slot(slot));
    let bs = slot_bundles(all, all_raw, slot);
    assert forall|j: int| 0 <= j < bs.len() implies {
        &&& (#[trigger] bs[j]).entries.len() > 0
        &&& forall|m: int| 0 <= m < bs[j].entries.len() ==> all.contains(#[trigger] bs[j].entries[m])
    } by {
        let k = kf[j];
        assert(bs[j] == make_bundle(all, all_raw, k));
        let kpred = |c: ScoredChapter| chapter_key(c, all) == k;
        let e = bundle_entries(all, k);
        assert(e == all.filter(kpred));
        assert(kf.contains(k));
        keys.lemma_filter_contains_rev(at_slot(slot), k);
        let kj = choose|kj: int| 0 <= kj < keys.len() && keys[kj] == k;
        let mapped = all.map_values(|c: ScoredChapter| chapter_key(c, all));
        lemma_distinct_firsts_from(mapped, kj);
        let ci = choose|ci: int| 0 <= ci < mapped.len() && mapped[ci] == k;
        assert(kpred(all[ci]));
        all.lemma_filter_contains(kpred, ci);
        assert(e.len() > 0);
        assert forall|m: int| 0 <= m < e.len() implies all.contains(#[trigger] e[m]) by {
            assert(e.contains(e[m]));
            all.lemma_filter_contains_rev(kpred, e[m]);
        }
    }
}

proof fn lemma_winners_upto_from(all: Seq<ScoredChapter>, all_raw: Seq<ScoredChapter>, n: int, x: int)
    requires
        0 <= x < winners_upto(all, all_raw, n).len(),
    ensures
        exists|i: int| 0 <= i < all.len() && all[i].id == winners_upto(all, all_raw, n)[x],
    decreases n,
{
    if n > 0 {
        let prev = winners_upto(all, all_raw, n - 1);
        let bs = slot_bundles(all, all_raw, slots_of(all)[n - 1]);
        let sel = select_best_spec(bs);
        assert(winners_upto(all, all_raw, n) == prev + sel);
        if x < prev.len() {
            lemma_winners_upto_from(all, all_raw, n - 1, x);
        } else {
            lemma_slot_bundles_from(all, all_raw, slots_of(all)[n - 1]);
            lemma_select_best_from(bs, all, x - prev.len());
        }
    }
}

/// Every chapter that selection picks by itself, before the user's overrides,
/// is one of the chapters that took part in it.
pub proof fn law_winners_take_part(all: Seq<ScoredChapter>, all_raw: Seq<ScoredChapter>, x: int)
    requires
        0 <= x < canonical_winners(all, all_raw).len(),
    ensures
        exists|i: int| 0 <= i < all.len() && all[i].id == canonical_winners(all, all_raw)[x],
{
    lemma_winners_upto_from(all, all_raw, slots_of(all).len() as int, x);
}

fn chapter_keys(all: &[ScoredChapter]) -> (ks: Vec<BundleKey>)
    ensures
        ks@.map_values(|k: BundleKey| key_view(k)) == all@.map_values(|c: ScoredChapter| chapter_key(c, all@)),
{
    let mut ks: Vec<BundleKey> = Vec::new();
    let mut i: usize = 0;
    while i < all.len()
        invariant
            i <= all@.len(),
            ks@.map_values(|k: BundleKey| key_view(k)) == all@.take(i as int).map_values(|c: ScoredChapter| chapter_key(c, all@)),
        decreases all.len() - i,
    {
        let slot = assign_slot_id(all[i].chapter_base, all[i].chapter_variant, all);
        let k: BundleKey = (slot, all[i].provider, all[i].chapter_variant == 0);
        let ghost before = ks@;
        ks.push(k);
        assert(key_view(k) == chapter_key(all@[i as int], all@));
        assert(ks@.map_values(|k: BundleKey| key_view(k)) =~= before.map_values(|k: BundleKey| key_view(k)).push(key_view(k)));
        assert(all@.take(i + 1) =~= all@.take(i as int).push(all@[i as int]));
        assert(all@.take(i + 1).map_values(|c: ScoredChapter| chapter_key(c, all@)) =~= all@.take(i as int).map_values(|c: ScoredChapter| chapter_key(c, all@)).push(chapter_key(all@[i as int], all@)));
        i = i + 1;
    }
    assert(all@.take(all@.len() as int) =~= all@);
    ks
}

fn same_key(a: &BundleKey, b: &BundleKey) -> (r: bool)
    ensures
        r == (key_view(*a) == key_view(*b)),
{
    a.0 == b.0 && a.1 == b.1 && a.2 == b.2
}

fn distinct_keys(ks: &Vec<BundleKey>) -> (d: Vec<BundleKey>)
    ensures
        d@.map_values(|k: BundleKey| key_view(k)) == distinct_firsts(ks@.map_values(|k: BundleKey| key_view(k))),
{
    let ghost kv = ks@.map_values(|k: BundleKey| key_view(k));
    let mut d: Vec<BundleKey> = Vec::new();
    let mut i: usize = 0;
    while i < ks.len()
        invariant
            i <= ks@.len(),
            kv == ks@.map_values(|k: BundleKey| key_view(k)),
            d@.map_values(|k: BundleKey| key_view(k)) == distinct_firsts(kv.take(i as int)),
        decreases ks.len() - i,
    {
        let ghost dv = d@.map_values(|k: BundleKey| key_view(k));
        assert(kv.take(i + 1).drop_last() =~= kv.take(i as int));
        assert(kv.take(i + 1).last() == key_view(ks@[i as int]));
        let mut found = false;
        let mut j: usize = 0;
        while j < d.len()
            invariant
                j <= d@.len(),
                i < ks@.len(),
                dv == d@.map_values(|k: BundleKey| key_view(k)),
                found == exists|m: int| 0 <= m < j && dv[m] == key_view(ks@[i as int]),
            decreases d.len() - j,
        {
            assert(dv[j as int] == key_view(d@[j as int]));
            if same_key(&d[j], &ks[i]) {
                found = true;
            }
            j = j + 1;
        }
        assert(found == dv.contains(key_view(ks@[i as int])));
        if !found {
            d.push(ks[i]);
            assert(d@.map_values(|k: BundleKey| key_view(k)) =~= dv.push(key_view(ks@[i as int])));
        }
        i = i + 1;
    }
    assert(kv.take(ks@.len() as int) =~= kv);
    d
}

fn distinct_slots(d: &Vec<BundleKey>) -> (s: Vec<i64>)
    ensures
        s@.map_values(|x: i64| x as int) == distinct_firsts(d@.map_values(|k: BundleKey| key_view(k)).map_values(|k: (int, Option<u32>, bool)| k.0)),
{
    let ghost sv = d@.map_values(|k: BundleKey| key_view(k)).map_values(|k: (int, Option<u32>, bool)| k.0);
    let mut s: Vec<i64> = Vec::new();
    let mut i: usize = 0;
    while i < d.len()
        invariant
            i <= d@.len(),
            sv == d@.map_values(|k: BundleKey| key_view(k)).map_values(|k: (int, Option<u32>, bool)| k.0),
            s@.map_values(|x: i64| x as int) == distinct_firsts(sv.take(i as int)),
        decreases d.len() - i,
    {
        let ghost cur = s@.map_values(|x: i64| x as int);
        assert(sv.take(i + 1).drop_last() =~= sv.take(i as int));
        assert(sv.take(i + 1).last() == d@[i as int].0 as int);
        let mut found = false;
        let mut j: usize = 0;
        while j < s.len()
            invariant
                j <= s@.len(),
                i < d@.len(),
                cur == s@.map_values(|x: i64| x as int),
                found == exists|m: int| 0 <= m < j && cur[m] == d@[i as int].0 as int,
            decreases s.len() - j,
        {
            assert(cur[j as int] == s@[j as int] as int);
            if s[j] == d[i].0 {
                found = true;
            }
            j = j + 1;
        }
        assert(found == cur.contains(d@[i as int].0 as int));
        if !found {
            s.push(d[i].0);
            assert(s@.map_values(|x: i64| x as int) =~= cur.push(d@[i as int].0 as int));
        }
        i = i + 1;
    }
    assert(sv.take(d@.len() as int) =~= sv);
    s
}

fn entries_for_key(all: &[ScoredChapter], ks: &Vec<BundleKey>, k: &BundleKey) -> (e: Vec<ScoredChapter>)
    requires
        ks@.map_values(|k: BundleKey| key_view(k)) == all@.map_values(|c: ScoredChapter| chapter_key(c, all@)),
    ensures
        e@ == bundle_entries(all@, key_view(*k)),
{
    let ghost kk = key_view(*k);
    let ghost pred = |c: ScoredChapter| chapter_key(c, all@) == kk;
    assert(ks@.len() == ks@.map_values(|k: BundleKey| key_view(k)).len());
    let mut e: Vec<ScoredChapter> = Vec::new();
    let mut i: usize = 0;
    while i < all.len()
        invariant
            i <= all@.len(),
            ks@.len() == all@.len(),
            ks@.map_values(|k: BundleKey| key_view(k)) == all@.map_values(|c: ScoredChapter| chapter_key(c, all@)),
            kk == key_view(*k),
            pred == (|c: ScoredChapter| chapter_key(c, all@) == kk),
            e@ == all@.take(i as int).filter(pred),
        decreases all.len() - i,
    {
        assert(all@.take(i + 1) =~= all@.take(i as int).push(all@[i as int]));
        proof { all@.take(i as int).lemma_filter_push(all@[i as int], pred); }
        assert(ks@.map_values(|k: BundleKey| key_view(k))[i as int] == key_view(ks@[i as int]));
        assert(all@.map_values(|c: ScoredChapter| chapter_key(c, all@))[i as int] == chapter_key(all@[i as int], all@));
        if same_key(&ks[i], k) {
            e.push(all[i].copy());
        }
        i = i + 1;
    }
    assert(all@.take(all@.len() as int) =~= all@);
    e
}

fn build_bundle(all: &[ScoredChapter], all_raw: &[ScoredChapter], ks: &Vec<BundleKey>, k: &BundleKey) -> (b: ProviderBundle)
    requires
        ks@.map_values(|k: BundleKey| key_view(k)) == all@.map_values(|c: ScoredChapter| chapter_key(c, all@)),
    ensures
        b@ == make_bundle(all@, all_raw@, key_view(*k)),
{
    let entries = entries_for_key(all, ks, k);
    let bundle_type = classify_bundle(entries.as_slice(), all_raw);
    let coverage = compute_bundle_coverage(entries.as_slice(), all_raw);
    ProviderBundle { entries, bundle_type, coverage }
}

/// The automatically selected canonical chapters of every slot: the chapters in
/// `all` are grouped into provider bundles per slot (bundles are classified
/// against `all_raw`, every chapter row of the manga), and each slot's bundles
/// are resolved by `select_best_bundle`.
pub fn select_canonical_winners(all: &[ScoredChapter], all_raw: &[ScoredChapter]) -> (r: Vec<u128>)
    ensures
        r@ == canonical_winners(all@, all_raw@),
{
    let ks = chapter_keys(all);
    let dk = distinct_keys(&ks);
    let slots = distinct_slots(&dk);
    let ghost akv = all@.map_values(|c: ScoredChapter| chapter_key(c, all@));
    let ghost dkv = dk@.map_values(|k: BundleKey| key_view(k));
    assert(dkv == bundle_keys(all@));
    let mut out: Vec<u128> = Vec::new();
    let mut si: usize = 0;
    while si < slots.len()
        invariant
            si <= slots@.len(),
            ks@.map_values(|k: BundleKey| key_view(k)) == akv,
            akv == all@.map_values(|c: ScoredChapter| chapter_key(c, all@)),
            dkv == dk@.map_values(|k: BundleKey| key_view(k)),
            dkv == bundle_keys(all@),
            slots@.map_values(|x: i64| x as int) == slots_of(all@),
            out@ == winners_upto(all@, all_raw@, si as int),
        decreases slots.len() - si,
    {
        let slot = slots[si];
        assert(slots@.map_values(|x: i64| x as int)[si as int] == slot as int);
        let ghost kpred = at_slot(slot as int);
        let ghost mk = bundle_maker(all@, all_raw@);
        let mut bundles: Vec<ProviderBundle> = Vec::new();
        let mut j: usize = 0;
        while j < dk.len()
            invariant
                j <= dk@.len(),
                ks@.map_values(|k: BundleKey| key_view(k)) == akv,
                akv == all@.map_values(|c: ScoredChapter| chapter_key(c, all@)),
                dkv == dk@.map_values(|k: BundleKey| key_view(k)),
                kpred == at_slot(slot as int),
                mk == bundle_maker(all@, all_raw@),
                bundle_views(bundles@) == dkv.take(j as int).filter(kpred).map_values(mk),
            decreases dk.len() - j,
        {
            assert(dkv.take(j + 1) =~= dkv.take(j as int).push(dkv[j as int]));
            assert(dkv[j as int] == key_view(dk@[j as int]));
            proof { dkv.take(j as int).lemma_filter_push(dkv[j as int], kpred); }
            let ghost before = dkv.take(j as int).filter(kpred);
            if dk[j].0 == slot {
                let b = build_bundle(all, all_raw, &ks, &dk[j]);
                let ghost bv = bundle_views(bundles@);
                bundles.push(b);
                assert(bundle_views(bundles@) =~= bv.push(b@));
                assert(before.push(dkv[j as int]).map_values(mk) =~= before.map_values(mk).push(mk(dkv[j as int])));
            }
            j = j + 1;
        }
        assert(dkv.take(dk@.len() as int) =~= dkv);
        proof {
            let sb = slot_bundles(all@, all_raw@, slot as int);
            assert(bundle_views(bundles@) == sb);
            assert forall|i: int| 0 <= i < sb.len() implies (#[trigger] sb[i]).entries.len() > 0 by {
                let fk = dkv.filter(kpred);
                let k = fk[i];
                assert(dkv.filter(kpred).contains(k));
                dkv.lemma_filter_contains_rev(kpred, k);
                let jj = choose|jj: int| 0 <= jj < dkv.len() && dkv[jj] == k;
                lemma_distinct_firsts_from(akv, jj);
                let m = choose|m: int| 0 <= m < akv.len() && akv[m] == k;
                assert(akv[m] == chapter_key(all@[m], all@));
                let ep = |c: ScoredChapter| chapter_key(c, all@) == k;
                all@.lemma_filter_contains(ep, m);
                assert(bundle_entries(all@, k).contains(all@[m]));
            }
            lemma_selection_defined(sb);
        }
        let mut w = select_best_bundle(bundles.as_slice());
        out.append(&mut w);
        si = si + 1;
    }
    out
}

// ---------------------------------------------------------------------------
// User overrides
// ---------------------------------------------------------------------------

/// Position of the chapter with id `id`, if any.
pub open spec fn find_chapter(s: Seq<ScoredChapter>, id: u128) -> Option<int>
    decreases s.len(),
{
    if s.len() == 0 {
        None
    } else {
        match find_chapter(s.drop_last(), id) {
            Some(j) => Some(j),
            None => if s.last().id == id {
                Some(s.len() - 1)
            } else {
                None
            },
        }
    }
}

/// Some chapter of `all` with base `base` has id `u`.
pub open spec fn in_base(all: Seq<ScoredChapter>, base: i32, u: u128) -> bool {
    exists|i: int| 0 <= i < all.len() && (#[trigger] all[i]).chapter_base == base && all[i].id == u
}

/// The split siblings of an override: same base and provider, variant 1 to 4, not an extra.
pub open spec fn is_sibling(c: ScoredChapter, o: ScoredChapter) -> bool {
    c.chapter_base == o.chapter_base && c.provider == o.provider && 1 <= c.chapter_variant <= 4 && !c.is_extra
}

/// Appends each of `sib` that is not yet present.
pub open spec fn add_missing(c: Seq<u128>, sib: Seq<u128>) -> Seq<u128>
    decreases sib.len(),
{
    if sib.len() == 0 {
        c
    } else {
        let p = add_missing(c, sib.drop_last());
        if p.contains(sib.last()) {
            p
        } else {
            p.push(sib.last())
        }
    }
}

/// One override applied to the canonical list and the set of bases already overridden:
/// the overridden chapter replaces the automatic choice for its base; a chosen split
/// part brings in all its siblings when it has more than one.
pub open spec fn apply_override(
    st: (Seq<u128>, Seq<i32>),
    target: u128,
    all: Seq<ScoredChapter>,
    all_raw: Seq<ScoredChapter>,
) -> (Seq<u128>, Seq<i32>) {
    match find_chapter(all_raw, target) {
        None => st,
        Some(j) => {
            let o = all_raw[j];
            let base = o.chapter_base;
            if st.1.contains(base) {
                st
            } else {
                let applied = st.1.push(base);
                let kept = st.0.filter(|u: u128| !in_base(all, base, u));
                if o.chapter_variant == 0 {
                    (kept.push(target), applied)
                } else {
                    let sib = ids_of(all_raw.filter(|c: ScoredChapter| is_sibling(c, o)));
                    if sib.len() > 1 {
                        (add_missing(kept, sib), applied)
                    } else if !kept.contains(target) {
                        (kept.push(target), applied)
                    } else {
                        (kept, applied)
                    }
                }
            }
        },
    }
}

/// The overrides applied in turn.
pub open spec fn apply_overrides_spec(
    targets: Seq<u128>,
    canonical: Seq<u128>,
    all: Seq<ScoredChapter>,
    all_raw: Seq<ScoredChapter>,
) -> (Seq<u128>, Seq<i32>)
    decreases targets.len(),
{
    if targets.len() == 0 {
        (canonical, Seq::empty())
    } else {
        apply_override(apply_overrides_spec(targets.drop_last(), canonical, all, all_raw), targets.last(), all, all_raw)
    }
}

pub(crate) fn find_chapter_exec(s: &[ScoredChapter], id: u128) -> (r: Option<usize>)
    ensures
        r matches Some(k) ==> k < s@.len(),
        match find_chapter(s@, id) {
            Some(j) => r is Some && r.unwrap() as int == j,
            None => r is None,
        },
{
    let mut i: usize = 0;
    let mut r: Option<usize> = None;
    while i < s.len()
        invariant
            i <= s@.len(),
            r matches Some(k) ==> k < i,
            match find_chapter(s@.take(i as int), id) {
                Some(j) => r is Some && r.unwrap() as int == j,
                None => r is None,
            },
        decreases s.len() - i,
    {
        assert(s@.take(i + 1).drop_last() =~= s@.take(i as int));
        if r.is_none() && s[i].id == id {
            r = Some(i);
        }
        i = i + 1;
    }
    assert(s@.take(s@.len() as int) =~= s@);
    r
}

fn vec_contains_u128(v: &Vec<u128>, x: u128) -> (r: bool)
    ensures
        r == v@.contains(x),
{
    let mut i: usize = 0;
    while i < v.len()
        invariant
            i <= v@.len(),
            forall|k: int| 0 <= k < i ==> v@[k] != x,
        decreases v.len() - i,
    {
        if v[i] == x {
            return true;
        }
        i = i + 1;
    }
    false
}

fn vec_contains_i32(v: &Vec<i32>, x: i32) -> (r: bool)
    ensures
        r == v@.contains(x),
{
    let mut i: usize = 0;
    while i < v.len()
        invariant
            i <= v@.len(),
            forall|k: int| 0 <= k < i ==> v@[k] != x,
        decreases v.len() - i,
    {
        if v[i] == x {
            return true;
        }
        i = i + 1;
    }
    false
}

fn in_base_exec(all: &[ScoredChapter], base: i32, u: u128) -> (r: bool)
    ensures
        r == in_base(all@, base, u),
{
    let mut i: usize = 0;
    while i < all.len()
        invariant
            i <= all@.len(),
            forall|k: int| 0 <= k < i ==> !((#[trigger] all@[k]).chapter_base == base && all@[k].id == u),
        decreases all.len() - i,
    {
        if all[i].chapter_base == base && all[i].id == u {
            return true;
        }
        i = i + 1;
    }
    false
}

fn sibling_ids(all_raw: &[ScoredChapter], o: &ScoredChapter) -> (r: Vec<u128>)
    ensures
        r@ == ids_of(all_raw@.filter(|c: ScoredChapter| is_sibling(c, *o))),
{
    let ghost pred = |c: ScoredChapter| is_sibling(c, *o);
    let mut r: Vec<u128> = Vec::new();
    let mut i: usize = 0;
    while i < all_raw.len()
        invariant
            i <= all_raw@.len(),
            pred == (|c: ScoredChapter| is_sibling(c, *o)),
            r@ == ids_of(all_raw@.take(i as int).filter(pred)),
        decreases all_raw.len() - i,
    {
        assert(all_raw@.take(i + 1) =~= all_raw@.take(i as int).push(all_raw@[i as int]));
        proof { all_raw@.take(i as int).lemma_filter_push(all_raw@[i as int], pred); }
        let ghost before = all_raw@.take(i as int).filter(pred);
        let c = &all_raw[i];
        if c.chapter_base == o.chapter_base && c.provider == o.provider && 1 <= c.chapter_variant && c.chapter_variant <= 4 && !c.is_extra {
            r.push(c.id);
            assert(ids_of(before.push(*c)) =~= ids_of(before).push(c.id));
        }
        i = i + 1;
    }
    assert(all_raw@.take(all_raw@.len() as int) =~= all_raw@);
    r
}

fn add_missing_exec(c: Vec<u128>, sib: &Vec<u128>) -> (r: Vec<u128>)
    ensures
        r@ == add_missing(c@, sib@),
{
    let ghost c0 = c@;
    let mut r = c;
    let mut i: usize = 0;
    while i < sib.len()
        invariant
            i <= sib@.len(),
            r@ == add_missing(c0, sib@.take(i as int)),
        decreases sib.len() - i,
    {
        assert(sib@.take(i + 1).drop_last() =~= sib@.take(i as int));
        assert(sib@.take(i + 1).last() == sib@[i as int]);
        if !vec_contains_u128(&r, sib[i]) {
            r.push(sib[i]);
        }
        i = i + 1;
    }
    assert(sib@.take(sib@.len() as int) =~= sib@);
    r
}

/// Applies the user's overrides, in the given order, to the automatic choice.
/// `all` holds the chapters that took part in selection, `all_raw` every chapter row.
pub fn apply_overrides(
    canonical: Vec<u128>,
    override_targets: &[u128],
    all: &[ScoredChapter],
    all_raw: &[ScoredChapter],
) -> (r: Vec<u128>)
    ensures
        r@ == apply_overrides_spec(override_targets@, canonical@, all@, all_raw@).0,
{
    let ghost c0 = canonical@;
    let mut cur = canonical;
    let mut applied: Vec<i32> = Vec::new();
    let mut t: usize = 0;
    while t < override_targets.len()
        invariant
            t <= override_targets@.len(),
            (cur@, applied@) == apply_overrides_spec(override_targets@.take(t as int), c0, all@, all_raw@),
        decreases override_targets.len() - t,
    {
        assert(override_targets@.take(t + 1).drop_last() =~= override_targets@.take(t as int));
        assert(override_targets@.take(t + 1).last() == override_targets@[t as int]);
        let target = override_targets[t];
        match find_chapter_exec(all_raw, target) {
            None => {},
            Some(j) => {
                let o = &all_raw[j];
                let base = o.chapter_base;
                if !vec_contains_i32(&applied, base) {
                    applied.push(base);
                    let ghost pred = |u: u128| !in_base(all@, base, u);
                    let ghost before = cur@;
                    let mut kept: Vec<u128> = Vec::new();
                    let mut i: usize = 0;
                    while i < cur.len()
                        invariant
                            i <= cur@.len(),
                            cur@ == before,
                            pred == (|u: u128| !in_base(all@, base, u)),
                            kept@ == before.take(i as int).filter(pred),
                        decreases cur.len() - i,
                    {
                        assert(before.take(i + 1) =~= before.take(i as int).push(before[i as int]));
                        proof { before.take(i as int).lemma_filter_push(before[i as int], pred); }
                        if !in_base_exec(all, base, cur[i]) {
                            kept.push(cur[i]);
                        }
                        i = i + 1;
                    }
                    assert(before.take(before.len() as int) =~= before);
                    if o.chapter_variant == 0 {
                        kept.push(target);
                        cur = kept;
                    } else {
                        let sib = sibling_ids(all_raw, o);
                        if sib.len() > 1 {
                            cur = add_missing_exec(kept, &sib);
                        } else if !vec_contains_u128(&kept, target) {
                            kept.push(target);
                            cur = kept;
                        } else {
                            cur = kept;
                        }
                    }
                }
            },
        }
        t = t + 1;
    }
    assert(override_targets@.take(override_targets@.len() as int) =~= override_targets@);
    cur
}

/// An override entry (slot key such as "2:1", chosen chapter) stays only while the
/// chosen chapter still exists among the manga's chapter rows.
pub fn prune_overrides(overrides: &[(String, u128)], all_raw: &[ScoredChapter]) -> (r: Vec<(String, u128)>)
    ensures
        r@.len() <= overrides@.len(),
        forall|i: int| 0 <= i < r@.len() ==> find_chapter(all_raw@, (#[trigger] r@[i]).1) is Some,
        r@.map_values(|e: (String, u128)| (e.0@, e.1)) == overrides@.filter(|e: (String, u128)| find_chapter(all_raw@, e.1) is Some).map_values(|e: (String, u128)| (e.0@, e.1)),
{
    let ghost pred = |e: (String, u128)| find_chapter(all_raw@, e.1) is Some;
    let ghost f = |e: (String, u128)| (e.0@, e.1);
    let mut r: Vec<(String, u128)> = Vec::new();
    let mut i: usize = 0;
    while i < overrides.len()
        invariant
            i <= overrides@.len(),
            pred == (|e: (String, u128)| find_chapter(all_raw@, e.1) is Some),
            f == (|e: (String, u128)| (e.0@, e.1)),
            r@.len() <= i,
            forall|k: int| 0 <= k < r@.len() ==> find_chapter(all_raw@, (#[trigger] r@[k]).1) is Some,
            r@.map_values(f) == overrides@.take(i as int).filter(pred).map_values(f),
        decreases overrides.len() - i,
    {
        assert(overrides@.take(i + 1) =~= overrides@.take(i as int).push(overrides@[i as int]));
        proof { overrides@.take(i as int).lemma_filter_push(overrides@[i as int], pred); }
        let ghost before = overrides@.take(i as int).filter(pred);
        let ghost rv = r@.map_values(f);
        let (key, id) = (&overrides[i].0, overrides[i].1);
        if find_chapter_exec(all_raw, id).is_some() {
            let k2 = key.clone();
            r.push((k2, id));
            assert(r@.map_values(f) =~= rv.push(f(overrides@[i as int])));
            assert(before.push(overrides@[i as int]).map_values(f) =~= before.map_values(f).push(f(overrides@[i as int])));
        }
        i = i + 1;
    }
    assert(overrides@.take(overrides@.len() as int) =~= overrides@);
    r
}

/// An override stays as long as its chapter exists for the manga, whatever
/// providers are disabled or language is preferred: pruning keeps every
/// override whose chapter is still among all the manga's chapters.
pub proof fn law_override_kept_while_chapter_exists(overrides: Seq<(String, u128)>, all_raw: Seq<ScoredChapter>, i: int)
    requires
        0 <= i < overrides.len(),
        find_chapter(all_raw, overrides[i].1) is Some,
    ensures
        overrides.filter(|e: (String, u128)| find_chapter(all_raw, e.1) is Some).contains(overrides[i]),
{
    overrides.lemma_filter_contains(|e: (String, u128)| find_chapter(all_raw, e.1) is Some, i);
}

// ---------------------------------------------------------------------------
// The whole selection
// ---------------------------------------------------------------------------

/// What canonical selection decides for a manga.
pub struct CanonicalSelection {
    /// Ids of the canonical chapters.
    pub canonical: Vec<u128>,
    /// Extra flags to record, as (chapter id, is extra).
    pub extra_updates: Vec<(u128, bool)>,
}

/// The chapters that take part in selection: enabled providers only, then the
/// preferred language (with fallback to all).
pub open spec fn participating(
    all_raw: Seq<ScoredChapter>,
    overrides: Seq<(u32, bool)>,
    disabled: Seq<u32>,
    preferred: Seq<char>,
) -> Seq<ScoredChapter> {
    language_filter_spec(enabled_chapters_spec(all_raw, overrides, disabled), preferred)
}

/// Canonical selection for one manga. `all_raw` is every chapter row of the manga,
/// `override_targets` the chapters the user chose, in the order the stored override
/// map yields them.
pub fn select_canonical(
    all_raw: &[ScoredChapter],
    series_overrides: &[(u32, bool)],
    globally_disabled: &[u32],
    preferred_language: &str,
    override_targets: &[u128],
) -> (r: CanonicalSelection)
    ensures
        ({
            let all = participating(all_raw@, series_overrides@, globally_disabled@, preferred_language@);
            &&& r.extra_updates@ == extra_updates_upto(all, all.len() as int)
            &&& r.canonical@ == apply_overrides_spec(override_targets@, canonical_winners(all, all_raw@), all, all_raw@).0
        }),
{
    let enabled = filter_enabled(all_raw, series_overrides, globally_disabled);
    let all = filter_language(enabled.as_slice(), preferred_language);
    let extra_updates = classify_extras(all.as_slice());
    let winners = select_canonical_winners(all.as_slice(), all_raw);
    let canonical = apply_overrides(winners, override_targets, all.as_slice(), all_raw);
    CanonicalSelection { canonical, extra_updates }
}

} // verus!
