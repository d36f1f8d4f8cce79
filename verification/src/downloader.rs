//! Chapter downloads: the order in which providers are tried, what a failed
//! attempt reports, and how the CBZ archive is laid out (its name, the
//! ComicInfo stub and the name of each page by its image type).

use vstd::prelude::*;
use crate::text::{nat_digits, push_char, push_str, str_eq, u64_to_string};

verus! {

/// Why a download failed.
#[derive(Debug)]
pub enum DownloadError {
    /// The series has no provider URLs.
    NoProviders,
    /// Every provider failed; the last failure's text.
    AllProvidersFailed(String),
    /// A database error, by its text.
    Db(String),
    /// A file error, by its text.
    Io(String),
    /// An HTTP error, by its text.
    Http(String),
    /// An archive error, by its text.
    Zip(String),
}

/// The text of a download error.
pub open spec fn download_error_text(e: DownloadError) -> Seq<char> {
    match e {
        DownloadError::NoProviders => "no provider URLs found for this manga \u{2014} run a scan first"@,
        DownloadError::AllProvidersFailed(s) => "all providers failed to download chapter "@ + s@,
        DownloadError::Db(s) => "database error: "@ + s@,
        DownloadError::Io(s) => "io error: "@ + s@,
        DownloadError::Http(s) => "http error: "@ + s@,
        DownloadError::Zip(s) => "zip error: "@ + s@,
    }
}

impl DownloadError {
    /// The text of the error.
    pub fn message(&self) -> (r: String)
        ensures
            r@ == download_error_text(*self),
    {
        let mut s = String::new();
        match self {
            DownloadError::NoProviders => push_str(&mut s, "no provider URLs found for this manga \u{2014} run a scan first"),
            DownloadError::AllProvidersFailed(e) => {
                push_str(&mut s, "all providers failed to download chapter ");
                push_str(&mut s, e.as_str());
            },
            DownloadError::Db(e) => {
                push_str(&mut s, "database error: ");
                push_str(&mut s, e.as_str());
            },
            DownloadError::Io(e) => {
                push_str(&mut s, "io error: ");
                push_str(&mut s, e.as_str());
            },
            DownloadError::Http(e) => {
                push_str(&mut s, "http error: ");
                push_str(&mut s, e.as_str());
            },
            DownloadError::Zip(e) => {
                push_str(&mut s, "zip error: ");
                push_str(&mut s, e.as_str());
            },
        }
        s
    }
}

// ---------------------------------------------------------------------------
// Provider order
// ---------------------------------------------------------------------------

/// The score a registry gives a provider: the last entry with its name.
pub open spec fn registry_score(reg: Seq<(String, i32)>, name: Seq<char>) -> Option<i32>
    decreases reg.len(),
{
    if reg.len() == 0 {
        None
    } else if reg.last().0@ == name {
        Some(reg.last().1)
    } else {
        registry_score(reg.drop_last(), name)
    }
}

/// The entries of a series whose provider is registered, with their scores,
/// in the order stored.
pub open spec fn registered_entries(entries: Seq<String>, reg: Seq<(String, i32)>) -> Seq<(usize, i32)>
    decreases entries.len(),
{
    if entries.len() == 0 {
        Seq::empty()
    } else {
        let rest = registered_entries(entries.drop_last(), reg);
        match registry_score(reg, entries.last()@) {
            Some(s) => rest.push(((entries.len() - 1) as usize, s)),
            None => rest,
        }
    }
}

/// Highest score first.
pub open spec fn by_score_desc(r: Seq<(usize, i32)>) -> bool {
    forall|i: int, j: int| 0 <= i < j < r.len() ==> r[i].1 >= r[j].1
}

/// Whether an entry has score `k`.
pub open spec fn score_is(k: i32) -> spec_fn((usize, i32)) -> bool {
    |e: (usize, i32)| e.1 == k
}

/// The score a registry gives a provider.
fn lookup_score(reg: &Vec<(String, i32)>, name: &str) -> (r: Option<i32>)
    ensures
        r == registry_score(reg@, name@),
{
    let mut r: Option<i32> = None;
    let mut i: usize = 0;
    while i < reg.len()
        invariant
            i <= reg.len(),
            r == registry_score(reg@.take(i as int), name@),
        decreases reg.len() - i,
    {
        proof {
            assert(reg@.take(i + 1).drop_last() =~= reg@.take(i as int));
        }
        if str_eq(reg[i].0.as_str(), name) {
            r = Some(reg[i].1);
        }
        i += 1;
    }
    proof {
        assert(reg@.take(reg.len() as int) =~= reg@);
    }
    r
}

/// Where an entry goes in a list sorted highest score first: after every
/// entry of its score or higher.
fn insertion_point(r: &Vec<(usize, i32)>, score: i32) -> (p: usize)
    requires
        by_score_desc(r@),
    ensures
        p <= r@.len(),
        forall|i: int| 0 <= i < p ==> r@[i].1 >= score,
        forall|i: int| p <= i < r@.len() ==> r@[i].1 < score,
{
    let mut p: usize = 0;
    while p < r.len() && r[p].1 >= score
        invariant
            p <= r@.len(),
            by_score_desc(r@),
            forall|i: int| 0 <= i < p ==> r@[i].1 >= score,
        decreases r.len() - p,
    {
        p = p + 1;
    }
    p
}

proof fn lemma_insert_keeps_groups(s: Seq<(usize, i32)>, p: int, a: (usize, i32), k: i32)
    requires
        0 <= p <= s.len(),
        forall|i: int| 0 <= i < p ==> s[i].1 >= a.1,
        forall|i: int| p <= i < s.len() ==> s[i].1 < a.1,
    ensures
        s.insert(p, a).filter(score_is(k)) == s.push(a).filter(score_is(k)),
    decreases s.len() - p,
{
    reveal(Seq::filter);
    if p == s.len() {
        assert(s.insert(p, a) =~= s.push(a));
    } else {
        let last = s.last();
        let init = s.drop_last();
        lemma_insert_keeps_groups(init, p, a, k);
        assert(s.insert(p, a) =~= init.insert(p, a).push(last));
        assert(s.insert(p, a).drop_last() =~= init.insert(p, a));
        assert(s.push(a).drop_last() =~= s);
        if last.1 == k {
            assert(a.1 != k);
            assert(init.push(a).drop_last() =~= init);
            assert(s.push(a).filter(score_is(k)) =~= s.filter(score_is(k)));
            assert(init.push(a).filter(score_is(k)) =~= init.filter(score_is(k)));
        } else {
            assert(s.filter(score_is(k)) =~= init.filter(score_is(k)));
            assert(init.push(a).drop_last() =~= init);
        }
    }
}

/// The order in which providers are tried for a series: the entries whose
/// provider is registered, highest score first, entries of equal score in
/// the order stored. Each item is an entry's position and its score.
pub fn download_order(entries: &Vec<String>, registry: &Vec<(String, i32)>) -> (r: Vec<(usize, i32)>)
    ensures
        by_score_desc(r@),
        forall|k: i32| #[trigger] r@.filter(score_is(k)) == registered_entries(entries@, registry@).filter(score_is(k)),
        r@.len() == registered_entries(entries@, registry@).len(),
{
    let mut r: Vec<(usize, i32)> = Vec::new();
    let mut i: usize = 0;
    while i < entries.len()
        invariant
            i <= entries.len(),
            by_score_desc(r@),
            r@.len() == registered_entries(entries@.take(i as int), registry@).len(),
            forall|k: i32| #[trigger] r@.filter(score_is(k)) == registered_entries(entries@.take(i as int), registry@).filter(
                score_is(k),
            ),
        decreases entries.len() - i,
    {
        let ghost before = r@;
        let ghost done = registered_entries(entries@.take(i as int), registry@);
        proof {
            assert(entries@.take(i + 1).drop_last() =~= entries@.take(i as int));
        }
        if let Some(score) = lookup_score(registry, entries[i].as_str()) {
            let a = (i, score);
            let p = insertion_point(&r, score);
            r.insert(p, a);
            proof {
                assert(registered_entries(entries@.take(i + 1), registry@) == done.push(a));
                assert forall|k: i32| #[trigger] r@.filter(score_is(k)) == done.push(a).filter(score_is(k)) by {
                    lemma_insert_keeps_groups(before, p as int, a, k);
                    before.lemma_filter_push(a, score_is(k));
                    done.lemma_filter_push(a, score_is(k));
                }
                assert forall|x: int, y: int| 0 <= x < y < r@.len() implies r@[x].1 >= r@[y].1 by {
                    if y < p {
                    } else if y == p {
                    } else if x < p {
                        assert(r@[y] == before[y - 1]);
                    } else if x == p {
                        assert(r@[y] == before[y - 1]);
                    } else {
                        assert(r@[x] == before[x - 1] && r@[y] == before[y - 1]);
                    }
                }
            }
        }
        i += 1;
    }
    proof {
        assert(entries@.take(entries.len() as int) =~= entries@);
    }
    r
}

// ---------------------------------------------------------------------------
// Attempt failures
// ---------------------------------------------------------------------------

/// How one provider's attempt at a chapter failed.
#[derive(Debug)]
pub enum AttemptFailure {
    /// The chapter is not in the provider's chapter list.
    ChapterNotFound,
    /// The provider's page list failed, with the error's text.
    PagesFailed(String),
    /// The provider returned no pages.
    NoPages,
    /// An image download failed, with the error's text.
    ImagesFailed(String),
    /// Writing the archive failed, with the error's text.
    WriteFailed(String),
}

/// The text that a failed attempt leaves as the last error.
pub open spec fn attempt_failure_text(provider: Seq<char>, number_raw: Seq<char>, f: AttemptFailure) -> Seq<char> {
    match f {
        AttemptFailure::ChapterNotFound => "chapter "@ + number_raw + " not found on "@ + provider,
        AttemptFailure::PagesFailed(e) => e@,
        AttemptFailure::NoPages => "0 pages returned by "@ + provider,
        AttemptFailure::ImagesFailed(e) => e@,
        AttemptFailure::WriteFailed(e) => e@,
    }
}

/// The text that a failed attempt leaves as the last error.
pub fn attempt_failure_message(provider: &str, number_raw: &str, failure: &AttemptFailure) -> (r: String)
    ensures
        r@ == attempt_failure_text(provider@, number_raw@, *failure),
{
    let mut s = String::new();
    match failure {
        AttemptFailure::ChapterNotFound => {
            push_str(&mut s, "chapter ");
            push_str(&mut s, number_raw);
            push_str(&mut s, " not found on ");
            push_str(&mut s, provider);
        },
        AttemptFailure::PagesFailed(e) => push_str(&mut s, e.as_str()),
        AttemptFailure::NoPages => {
            push_str(&mut s, "0 pages returned by ");
            push_str(&mut s, provider);
        },
        AttemptFailure::ImagesFailed(e) => push_str(&mut s, e.as_str()),
        AttemptFailure::WriteFailed(e) => push_str(&mut s, e.as_str()),
    }
    s
}

/// The error of a download in which no attempt succeeded: no provider URLs
/// at all, else every tried provider failed (the last failure's text; empty
/// when no stored provider is registered).
pub fn download_failure(entry_count: usize, last_err: String) -> (r: DownloadError)
    ensures
        entry_count == 0 ==> r is NoProviders,
        entry_count > 0 ==> r == DownloadError::AllProvidersFailed(last_err),
{
    if entry_count == 0 {
        DownloadError::NoProviders
    } else {
        DownloadError::AllProvidersFailed(last_err)
    }
}

// ---------------------------------------------------------------------------
// Archive layout
// ---------------------------------------------------------------------------

/// The file name of a chapter's archive.
pub fn cbz_file_name(number_raw: &str) -> (r: String)
    ensures
        r@ == "Chapter "@ + number_raw@ + ".cbz"@,
{
    let mut s = String::new();
    push_str(&mut s, "Chapter ");
    push_str(&mut s, number_raw);
    push_str(&mut s, ".cbz");
    s
}

/// The ComicInfo stub written into a downloaded archive; the title and
/// number are written as they are.
pub open spec fn comic_info_stub_spec(series_title: Seq<char>, chapter_number: Seq<char>) -> Seq<char> {
    "<?xml version=\"1.0\" encoding=\"utf-8\"?>\n<ComicInfo xmlns:xsd=\"http://www.w3.org/2001/XMLSchema\"\n           xmlns:xsi=\"http://www.w3.org/2001/XMLSchema-instance\">\n  <Series>"@
        + series_title + "</Series>\n  <Number>"@ + chapter_number + "</Number>\n</ComicInfo>"@
}

/// The ComicInfo stub written into a downloaded archive.
pub fn comic_info_stub(series_title: &str, chapter_number: &str) -> (r: String)
    ensures
        r@ == comic_info_stub_spec(series_title@, chapter_number@),
{
    let mut s = String::new();
    push_str(
        &mut s,
        "<?xml version=\"1.0\" encoding=\"utf-8\"?>\n<ComicInfo xmlns:xsd=\"http://www.w3.org/2001/XMLSchema\"\n           xmlns:xsi=\"http://www.w3.org/2001/XMLSchema-instance\">\n  <Series>",
    );
    push_str(&mut s, series_title);
    push_str(&mut s, "</Series>\n  <Number>");
    push_str(&mut s, chapter_number);
    push_str(&mut s, "</Number>\n</ComicInfo>");
    s
}

/// Whether `d` begins with the bytes of `p`.
pub open spec fn bytes_start_with(d: Seq<u8>, p: Seq<u8>) -> bool {
    p.len() <= d.len() && d.subrange(0, p.len() as int) == p
}

/// The image type that the first bytes of a file show; "jpg" when none does.
pub open spec fn image_ext_spec(d: Seq<u8>) -> Seq<char> {
    if bytes_start_with(d, seq![0xFFu8, 0xD8u8, 0xFFu8]) {
        "jpg"@
    } else if bytes_start_with(d, seq![0x89u8, 0x50u8, 0x4Eu8, 0x47u8]) {
        "png"@
    } else if bytes_start_with(d, seq![0x47u8, 0x49u8, 0x46u8, 0x38u8]) {
        "gif"@
    } else if bytes_start_with(d, seq![0x52u8, 0x49u8, 0x46u8, 0x46u8]) && d.len() >= 12 && d.subrange(8, 12)
        == seq![0x57u8, 0x45u8, 0x42u8, 0x50u8] {
        "webp"@
    } else {
        "jpg"@
    }
}

/// Whether the four bytes of `d` from `at` are `a b c e`.
fn four_bytes_at(d: &[u8], at: usize, a: u8, b: u8, c: u8, e: u8) -> (r: bool)
    requires
        at + 4 <= d@.len(),
    ensures
        r == (d@.subrange(at as int, at + 4) == seq![a, b, c, e]),
{
    let r = d[at] == a && d[at + 1] == b && d[at + 2] == c && d[at + 3] == e;
    proof {
        if r {
            assert(d@.subrange(at as int, at + 4) =~= seq![a, b, c, e]);
        } else if d@.subrange(at as int, at + 4) == seq![a, b, c, e] {
            assert(d@.subrange(at as int, at + 4)[0] == a);
            assert(d@.subrange(at as int, at + 4)[1] == b);
            assert(d@.subrange(at as int, at + 4)[2] == c);
            assert(d@.subrange(at as int, at + 4)[3] == e);
        }
    }
    r
}

/// Guesses an image's file extension from its first bytes.
pub fn image_ext(data: &[u8]) -> (r: &'static str)
    ensures
        r@ == image_ext_spec(data@),
{
    let jpg = data.len() >= 3 && data[0] == 0xFFu8 && data[1] == 0xD8u8 && data[2] == 0xFFu8;
    proof {
        let p = seq![0xFFu8, 0xD8u8, 0xFFu8];
        if jpg {
            assert(data@.subrange(0, 3) =~= p);
        } else if bytes_start_with(data@, p) {
            assert(data@.subrange(0, 3)[0] == 0xFFu8 && data@.subrange(0, 3)[1] == 0xD8u8 && data@.subrange(0, 3)[2] == 0xFFu8);
        }
        assert(seq![0x89u8, 0x50u8, 0x4Eu8, 0x47u8].len() == 4);
        assert(seq![0x52u8, 0x49u8, 0x46u8, 0x46u8].len() == 4);
        assert(seq![0x47u8, 0x49u8, 0x46u8, 0x38u8].len() == 4);
    }
    if jpg {
        return "jpg";
    }
    if data.len() >= 4 && four_bytes_at(data, 0, 0x89, 0x50, 0x4E, 0x47) {
        return "png";
    }
    if data.len() >= 4 && four_bytes_at(data, 0, 0x47, 0x49, 0x46, 0x38) {
        return "gif";
    }
    if data.len() >= 12 && four_bytes_at(data, 0, 0x52, 0x49, 0x46, 0x46) && four_bytes_at(data, 8, 0x57, 0x45, 0x42, 0x50) {
        return "webp";
    }
    "jpg"
}

/// Zero-padded to at least four characters.
pub open spec fn pad4(s: Seq<char>) -> Seq<char> {
    if s.len() >= 4 {
        s
    } else {
        Seq::new((4 - s.len()) as nat, |i: int| '0') + s
    }
}

/// The name of a page in the archive: its index, zero-padded to four
/// digits, and the extension its first bytes show.
pub fn page_file_name(index: u32, data: &[u8]) -> (r: String)
    ensures
        r@ == pad4(nat_digits(index as nat)) + "."@ + image_ext_spec(data@),
{
    let digits = u64_to_string(index as u64);
    let n = digits.as_str().unicode_len();
    let mut s = String::new();
    let mut k: usize = n;
    while k < 4
        invariant
            n <= k <= 4 || (n > 4 && k == n),
            n == nat_digits(index as nat).len(),
            s@ == Seq::new((k - n) as nat, |i: int| '0'),
        decreases 4 - k,
    {
        push_char(&mut s, '0');
        proof {
            assert(s@ =~= Seq::new((k + 1 - n) as nat, |i: int| '0'));
        }
        k += 1;
    }
    push_str(&mut s, digits.as_str());
    push_char(&mut s, '.');
    push_str(&mut s, image_ext(data));
    proof {
        if n >= 4 {
            assert(s@ =~= nat_digits(index as nat) + "."@ + image_ext_spec(data@)) by {
                reveal_strlit(".");
            }
        } else {
            reveal_strlit(".");
            assert(s@ =~= pad4(nat_digits(index as nat)) + "."@ + image_ext_spec(data@));
        }
    }
    s
}

} // verus!
