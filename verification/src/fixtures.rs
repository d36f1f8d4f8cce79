//! Provider fixtures of the command-line tool: what a fixture expects of a
//! provider, how a live scrape is checked against it, how a fresh fixture is
//! seeded from a scrape, and how results are tallied and reported.

use vstd::prelude::*;
use crate::text::{chars_of, nat_digits, opt_view, push_str, string_of, write_u64};

verus! {

/// The scraped metadata of one chapter.
#[derive(Debug)]
pub struct ChapterFixture {
    pub raw_number: String,
    pub title: Option<String>,
    pub scanlator_group: Option<String>,
    pub language: Option<String>,
    /// Unix time of the chapter's release.
    pub date_released: Option<i64>,
    pub url: Option<String>,
}

/// What a provider is expected to give for a query. An empty or zero field is
/// not seeded yet, and its check is skipped.
#[derive(Debug)]
pub struct Fixture {
    pub provider: String,
    pub query: String,
    pub expected_search_title: String,
    pub expected_min_chapters: usize,
    pub first_chapter: Option<ChapterFixture>,
    pub test_chapter_url: String,
    pub expected_min_pages: usize,
}

/// The result of one check.
#[derive(Debug, Clone, Copy, PartialEq, Eq, Structural)]
pub enum CheckOutcome {
    Pass,
    Fail,
    Skip,
}

/// The chapter count check: skipped when not seeded, else at least the
/// expected number of chapters.
pub open spec fn chapter_check_spec(expected_min: usize, live: usize) -> CheckOutcome {
    if expected_min == 0 {
        CheckOutcome::Skip
    } else if live >= expected_min {
        CheckOutcome::Pass
    } else {
        CheckOutcome::Fail
    }
}

pub fn chapter_count_check(expected_min: usize, live: usize) -> (r: CheckOutcome)
    ensures
        r == chapter_check_spec(expected_min, live),
{
    if expected_min == 0 {
        CheckOutcome::Skip
    } else if live >= expected_min {
        CheckOutcome::Pass
    } else {
        CheckOutcome::Fail
    }
}

/// The page count check of a fetched test chapter: passes with at least the
/// expected pages, or when no minimum is seeded.
pub open spec fn page_check_spec(expected_min: usize, live: usize) -> CheckOutcome {
    if expected_min == 0 || live >= expected_min {
        CheckOutcome::Pass
    } else {
        CheckOutcome::Fail
    }
}

pub fn page_count_check(expected_min: usize, live: usize) -> (r: CheckOutcome)
    ensures
        r == page_check_spec(expected_min, live),
{
    if expected_min == 0 || live >= expected_min {
        CheckOutcome::Pass
    } else {
        CheckOutcome::Fail
    }
}

/// A field of a chapter's metadata.
#[derive(Debug, Clone, Copy, PartialEq, Eq, Structural)]
pub enum FixtureField {
    RawNumber,
    Title,
    ScanlatorGroup,
    Language,
    DateReleased,
    Url,
}

pub open spec fn field_if(differs: bool, f: FixtureField) -> Seq<FixtureField> {
    if differs { seq![f] } else { Seq::empty() }
}

/// The fields whose values changed, in the order of the fixture.
pub open spec fn diffs_spec(e: ChapterFixture, l: ChapterFixture) -> Seq<FixtureField> {
    field_if(e.raw_number@ != l.raw_number@, FixtureField::RawNumber)
        + field_if(opt_view(e.title) != opt_view(l.title), FixtureField::Title)
        + field_if(opt_view(e.scanlator_group) != opt_view(l.scanlator_group), FixtureField::ScanlatorGroup)
        + field_if(opt_view(e.language) != opt_view(l.language), FixtureField::Language)
        + field_if(e.date_released != l.date_released, FixtureField::DateReleased)
        + field_if(opt_view(e.url) != opt_view(l.url), FixtureField::Url)
}

fn text_eq(a: &String, b: &String) -> (r: bool)
    ensures
        r == (a@ == b@),
{
    crate::text::str_eq(a.as_str(), b.as_str())
}

fn opt_eq(a: &Option<String>, b: &Option<String>) -> (r: bool)
    ensures
        r == (opt_view(*a) == opt_view(*b)),
{
    match (a, b) {
        (Some(x), Some(y)) => text_eq(x, y),
        (None, None) => true,
        _ => false,
    }
}

fn push_if(v: &mut Vec<FixtureField>, differs: bool, f: FixtureField)
    ensures
        final(v)@ == old(v)@ + field_if(differs, f),
{
    if differs {
        v.push(f);
        assert(final(v)@ =~= old(v)@ + field_if(differs, f));
    } else {
        assert(final(v)@ =~= old(v)@ + field_if(differs, f));
    }
}

/// The fields of the first chapter that changed since the fixture was seeded.
pub fn first_chapter_diffs(expected: &ChapterFixture, live: &ChapterFixture) -> (r: Vec<FixtureField>)
    ensures
        r@ == diffs_spec(*expected, *live),
{
    let mut v: Vec<FixtureField> = Vec::new();
    push_if(&mut v, !text_eq(&expected.raw_number, &live.raw_number), FixtureField::RawNumber);
    push_if(&mut v, !opt_eq(&expected.title, &live.title), FixtureField::Title);
    push_if(&mut v, !opt_eq(&expected.scanlator_group, &live.scanlator_group), FixtureField::ScanlatorGroup);
    push_if(&mut v, !opt_eq(&expected.language, &live.language), FixtureField::Language);
    push_if(&mut v, expected.date_released != live.date_released, FixtureField::DateReleased);
    push_if(&mut v, !opt_eq(&expected.url, &live.url), FixtureField::Url);
    assert(v@ =~= diffs_spec(*expected, *live));
    v
}

/// The minimum chapters a fresh fixture expects: ten fewer than seen, at least zero.
pub open spec fn seeded_min_chapters(live: usize) -> usize {
    if live >= 10 { (live - 10) as usize } else { 0 }
}

/// The minimum pages a fresh fixture expects: three fewer than seen, at least one.
pub open spec fn seeded_min_pages(live: usize) -> usize {
    if live >= 4 { (live - 3) as usize } else { 1 }
}

/// A fixture seeded from a live scrape, with room for the provider's counts
/// to shrink a little.
pub fn seed_fixture(
    provider: String,
    query: String,
    matched_title: String,
    chapter_count: usize,
    first_chapter: ChapterFixture,
    test_chapter_url: String,
    page_count: usize,
) -> (f: Fixture)
    ensures
        f.provider == provider,
        f.query == query,
        f.expected_search_title == matched_title,
        f.expected_min_chapters == seeded_min_chapters(chapter_count),
        f.first_chapter == Some(first_chapter),
        f.test_chapter_url == test_chapter_url,
        f.expected_min_pages == seeded_min_pages(page_count),
{
    Fixture {
        provider,
        query,
        expected_search_title: matched_title,
        expected_min_chapters: if chapter_count >= 10 { chapter_count - 10 } else { 0 },
        first_chapter: Some(first_chapter),
        test_chapter_url,
        expected_min_pages: if page_count >= 4 { page_count - 3 } else { 1 },
    }
}

/// A fixture seeded from a scrape passes its count checks on that same
/// scrape, given at least one page (with none, the seeded minimum of one page
/// already fails).
pub proof fn law_seeded_fixture_accepts_its_scrape(chapters: usize, pages: usize)
    requires
        pages >= 1,
    ensures
        chapter_check_spec(seeded_min_chapters(chapters), chapters) != CheckOutcome::Fail,
        page_check_spec(seeded_min_pages(pages), pages) == CheckOutcome::Pass,
{
}

/// Counts of the checks of one fixture.
#[derive(Debug, Clone, Copy)]
pub struct CheckTally {
    pub pass: u64,
    pub fail: u64,
    pub skip: u64,
}

/// The result of one fixture.
#[derive(Debug, Clone, Copy, PartialEq, Eq, Structural)]
pub enum FixtureResult {
    /// No check is seeded yet.
    Seed,
    Pass,
    Fail,
}

pub open spec fn fixture_result_spec(t: CheckTally) -> FixtureResult {
    if t.fail > 0 {
        FixtureResult::Fail
    } else if t.pass == 0 {
        FixtureResult::Seed
    } else {
        FixtureResult::Pass
    }
}

impl CheckTally {
    pub fn new() -> (r: Self)
        ensures
            r.pass == 0 && r.fail == 0 && r.skip == 0,
    {
        CheckTally { pass: 0, fail: 0, skip: 0 }
    }

    /// Counts one check.
    pub fn record(&mut self, o: CheckOutcome)
        requires
            old(self).pass < u64::MAX && old(self).fail < u64::MAX && old(self).skip < u64::MAX,
        ensures
            final(self).pass == old(self).pass + (if o == CheckOutcome::Pass { 1int } else { 0 }),
            final(self).fail == old(self).fail + (if o == CheckOutcome::Fail { 1int } else { 0 }),
            final(self).skip == old(self).skip + (if o == CheckOutcome::Skip { 1int } else { 0 }),
    {
        match o {
            CheckOutcome::Pass => self.pass = self.pass + 1,
            CheckOutcome::Fail => self.fail = self.fail + 1,
            CheckOutcome::Skip => self.skip = self.skip + 1,
        }
    }

    /// The result of a fixture: `Fail` when one of its checks failed, `Seed`
    /// when none passed or failed, `Pass` otherwise.
    pub fn result(&self) -> (r: FixtureResult)
        ensures
            r == fixture_result_spec(*self),
    {
        if self.fail > 0 {
            FixtureResult::Fail
        } else if self.pass == 0 {
            FixtureResult::Seed
        } else {
            FixtureResult::Pass
        }
    }
}

/// Counts of fixtures over a run.
#[derive(Debug, Clone, Copy)]
pub struct RunTotals {
    pub passed: u64,
    pub failed: u64,
    pub seed: u64,
}

impl RunTotals {
    pub fn new() -> (r: Self)
        ensures
            r.passed == 0 && r.failed == 0 && r.seed == 0,
    {
        RunTotals { passed: 0, failed: 0, seed: 0 }
    }

    /// Counts a fixture by its result.
    pub fn record(&mut self, v: FixtureResult)
        requires
            old(self).passed < u64::MAX && old(self).failed < u64::MAX && old(self).seed < u64::MAX,
        ensures
            final(self).passed == old(self).passed + (if v == FixtureResult::Pass { 1int } else { 0 }),
            final(self).failed == old(self).failed + (if v == FixtureResult::Fail { 1int } else { 0 }),
            final(self).seed == old(self).seed + (if v == FixtureResult::Seed { 1int } else { 0 }),
    {
        match v {
            FixtureResult::Pass => self.passed = self.passed + 1,
            FixtureResult::Fail => self.failed = self.failed + 1,
            FixtureResult::Seed => self.seed = self.seed + 1,
        }
    }

    /// The closing line of a run.
    pub fn summary(&self) -> (s: String)
        requires
            self.passed + self.failed <= u64::MAX,
        ensures
            s@ == summary_spec(*self),
    {
        let mut s = String::new();
        write_u64(&mut s, self.passed);
        push_str(&mut s, "/");
        write_u64(&mut s, self.passed + self.failed);
        push_str(&mut s, " passed, ");
        write_u64(&mut s, self.failed);
        push_str(&mut s, " failed");
        if self.seed > 0 {
            push_str(&mut s, ", ");
            write_u64(&mut s, self.seed);
            push_str(&mut s, " not seeded (run `test --update` to seed them)");
        }
        s
    }
}

/// "{passed}/{tested} passed, {failed} failed", and the fixtures not seeded
/// yet, if any.
pub open spec fn summary_spec(t: RunTotals) -> Seq<char> {
    nat_digits(t.passed as nat) + "/"@ + nat_digits((t.passed + t.failed) as nat) + " passed, "@
        + nat_digits(t.failed as nat) + " failed"@
        + if t.seed > 0 {
        ", "@ + nat_digits(t.seed as nat) + " not seeded (run `test --update` to seed them)"@
    } else {
        Seq::empty()
    }
}

// ---------------------------------------------------------------------------
// Short error texts
// ---------------------------------------------------------------------------

/// Bytes of a character in UTF-8.
pub open spec fn utf8_width(c: char) -> nat {
    if (c as u32) < 0x80 {
        1
    } else if (c as u32) < 0x800 {
        2
    } else if (c as u32) < 0x10000 {
        3
    } else {
        4
    }
}

/// Bytes of a text in UTF-8.
pub open spec fn utf8_len(s: Seq<char>) -> nat
    decreases s.len(),
{
    if s.len() == 0 {
        0
    } else {
        utf8_len(s.drop_last()) + utf8_width(s.last())
    }
}

/// Longest error text shown inline, in bytes.
pub const SHORT_ERR_LIMIT: usize = 60;

/// A long error text cut to its first 60 bytes, which must end on a character.
pub open spec fn short_err_spec(s: Seq<char>, r: Seq<char>) -> bool {
    if utf8_len(s) > SHORT_ERR_LIMIT {
        r.len() <= s.len() && r == s.take(r.len() as int) && utf8_len(r) == SHORT_ERR_LIMIT
    } else {
        r == s
    }
}

fn char_width(c: char) -> (w: usize)
    ensures
        w == utf8_width(c),
{
    let v = c as u32;
    if v < 0x80 {
        1
    } else if v < 0x800 {
        2
    } else if v < 0x10000 {
        3
    } else {
        4
    }
}

proof fn lemma_utf8_len_take(s: Seq<char>, i: int)
    requires
        0 <= i < s.len(),
    ensures
        utf8_len(s.take(i + 1)) == utf8_len(s.take(i)) + utf8_width(s[i]),
{
    assert(s.take(i + 1).drop_last() =~= s.take(i));
}

proof fn lemma_utf8_len_grows(s: Seq<char>, i: int, j: int)
    requires
        0 <= i <= j <= s.len(),
    ensures
        utf8_len(s.take(i)) + (j - i) <= utf8_len(s.take(j)),
    decreases j - i,
{
    if i < j {
        lemma_utf8_len_grows(s, i, j - 1);
        lemma_utf8_len_take(s, j - 1);
    }
}

/// A long error text cut for inline display: more than 60 bytes keep their
/// first 60, which must end on a character boundary.
pub fn short_err(s: &str) -> (r: String)
    requires
        utf8_len(s@) > SHORT_ERR_LIMIT ==> exists|k: int| 0 <= k <= s@.len() && utf8_len(#[trigger] s@.take(k)) == SHORT_ERR_LIMIT,
    ensures
        short_err_spec(s@, r@),
{
    let cs = chars_of(s);
    let mut bytes: usize = 0;
    let mut i: usize = 0;
    while i < cs.len() && bytes < SHORT_ERR_LIMIT
        invariant
            cs@ == s@,
            i <= cs@.len(),
            bytes == utf8_len(s@.take(i as int)),
            bytes <= SHORT_ERR_LIMIT + 3,
            i > 0 ==> utf8_len(s@.take(i - 1)) < SHORT_ERR_LIMIT,
        decreases cs.len() - i,
    {
        proof {
            lemma_utf8_len_take(s@, i as int);
        }
        bytes = bytes + char_width(cs[i]);
        i = i + 1;
    }
    if bytes > SHORT_ERR_LIMIT || i < cs.len() {
        // More than the limit: the limit falls at character i.
        proof {
            assert(s@.take(s@.len() as int) =~= s@);
            lemma_utf8_len_grows(s@, i as int, s@.len() as int);
            if bytes > SHORT_ERR_LIMIT {
                // No character ends at the limit, which the caller rules out.
                let k = choose|k: int| 0 <= k <= s@.len() && utf8_len(#[trigger] s@.take(k)) == SHORT_ERR_LIMIT;
                if k < i {
                    lemma_utf8_len_grows(s@, k, i - 1);
                } else {
                    lemma_utf8_len_grows(s@, i as int, k);
                }
                assert(false);
            }
        }
        let mut out: Vec<char> = Vec::new();
        let mut j: usize = 0;
        while j < i
            invariant
                j <= i <= cs@.len(),
                cs@ == s@,
                out@ == s@.take(j as int),
            decreases i - j,
        {
            out.push(cs[j]);
            j = j + 1;
            assert(out@ =~= s@.take(j as int));
        }
        string_of(out.as_slice())
    } else {
        proof {
            assert(s@.take(s@.len() as int) =~= s@);
        }
        string_of(cs.as_slice())
    }
}

} // verus!
