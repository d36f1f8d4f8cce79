//! Importing CBZ files and series folders that were not downloaded here: how a
//! file is classified, how its chapter title and number are read from its
//! name, what it is renamed to, which series folders are offered, and how the
//! outcome of an import is summed up.

use vstd::prelude::*;
use crate::comicinfo::Chapter;
use crate::task::chapter_number_spec;
use crate::errors::{bad_request, is_failure, ApiFailure, ApiStatus};
use crate::ids::{new_v4, uuid_string, uuid_text};
use crate::manga::{parse_uuid, uuid_parsed};
use crate::text::{write_i64, 
    chars_of, clone_opt, ends_with, ends_with_spec, lemma_seq_lt_transitive, lemma_seq_lt_trichotomy,
    opt_view, push_char, push_str, seq_lt, str_lt, string_of, substring, trim, trim_seq,
};

verus! {

// ---------------------------------------------------------------------------
// Tiers
// ---------------------------------------------------------------------------

/// How much an imported CBZ tells about itself.
#[derive(Debug, Clone, Copy, PartialEq, Eq, Structural)]
pub enum ImportTier {
    /// Written by this application: its notes carry the chapter's id.
    Rebarr,
    /// Another CBZ whose ComicInfo.xml names a series, a number or an AniList id.
    ComicInfo,
    /// Nothing usable inside: the number comes from the file name.
    Filename,
}

pub open spec fn tier_rank(t: ImportTier) -> u8 {
    match t {
        ImportTier::Rebarr => 0,
        ImportTier::ComicInfo => 1,
        ImportTier::Filename => 2,
    }
}

/// The order in which candidates are listed: most informative tier first.
pub fn tier_order(tier: &ImportTier) -> (r: u8)
    ensures
        r == tier_rank(*tier),
{
    match tier {
        ImportTier::Rebarr => 0,
        ImportTier::ComicInfo => 1,
        ImportTier::Filename => 2,
    }
}

// ---------------------------------------------------------------------------
// Patterns on chapter titles and file names
// ---------------------------------------------------------------------------

/// Whether a regular expression matches somewhere in a text; `None` when the
/// expression does not compile.
pub uninterp spec fn regex_finds(pattern: Seq<char>, text: Seq<char>) -> Option<bool>;

/// The text of a group of the first match of a regular expression: `None` when
/// the expression does not compile, `Some(None)` when there is no match or the
/// group took no part in it.
pub uninterp spec fn regex_group(pattern: Seq<char>, text: Seq<char>, group: nat) -> Option<Option<Seq<char>>>;

/// The text with the first match of a regular expression replaced by a literal
/// replacement; `None` when the expression does not compile.
pub uninterp spec fn regex_replaced(pattern: Seq<char>, text: Seq<char>, replacement: Seq<char>) -> Option<Seq<char>>;

/// `regex::Regex::new` then `Regex::is_match`. The contract names the result.
#[verifier::external_body]
fn regex_is_match(pattern: &str, text: &str) -> (r: Option<bool>)
    ensures
        r == regex_finds(pattern@, text@),
{
    regex::Regex::new(pattern).ok().map(|re| re.is_match(text))
}

/// `regex::Regex::new` then `Regex::captures` and `Captures::get`. The
/// contract names the result.
#[verifier::external_body]
fn regex_capture(pattern: &str, text: &str, group: usize) -> (r: Option<Option<String>>)
    ensures
        r matches Some(Some(s)) ==> regex_group(pattern@, text@, group as nat) == Some(Some(s@)),
        r matches Some(None) ==> regex_group(pattern@, text@, group as nat) == Some(None::<Seq<char>>),
        r is None ==> regex_group(pattern@, text@, group as nat) is None,
{
    regex::Regex::new(pattern).ok().map(|re| re.captures(text).and_then(|c| c.get(group)).map(|m| m.as_str().to_string()))
}

/// `regex::Regex::new` then `Regex::replace` with a literal replacement. The
/// contract names the result.
#[verifier::external_body]
fn regex_replace(pattern: &str, text: &str, replacement: &str) -> (r: Option<String>)
    ensures
        r matches Some(s) ==> regex_replaced(pattern@, text@, replacement@) == Some(s@),
        r is None ==> regex_replaced(pattern@, text@, replacement@) is None,
{
    regex::Regex::new(pattern).ok().map(|re| re.replace(text, regex::NoExpand(replacement)).into_owned())
}

/// Chapter titles that only repeat the number, such as "Chapter 43", "Ch. 43"
/// or "ch27.4".
pub open spec fn generic_title_pattern() -> Seq<char> {
    "(?i)^ch(?:apter)?[._\\s]*\\d"@
}

/// Whether a chapter title is only its number ("Chapter 43", "Ch.27.4"):
/// such titles are dropped on import.
pub fn is_generic_chapter_title(title: &str) -> (r: bool)
    ensures
        r == (regex_finds(generic_title_pattern(), trim_seq(title@)) == Some(true)),
{
    let trimmed = trim(title);
    match regex_is_match("(?i)^ch(?:apter)?[._\\s]*\\d", trimmed.as_str()) {
        Some(b) => b,
        None => false,
    }
}

/// A file name without its ".cbz" (or ".CBZ") extension.
pub open spec fn file_stem(name: Seq<char>) -> Seq<char> {
    if ends_with_spec(name, ".cbz"@) || ends_with_spec(name, ".CBZ"@) {
        name.subrange(0, name.len() - 4)
    } else {
        name
    }
}

pub fn cbz_file_stem(name: &str) -> (r: String)
    ensures
        r@ == file_stem(name@),
{
    proof {
        reveal_strlit(".cbz");
        reveal_strlit(".CBZ");
    }
    if ends_with(name, ".cbz") || ends_with(name, ".CBZ") {
        substring(name, 0, name.unicode_len() - 4)
    } else {
        substring(name, 0, name.unicode_len())
    }
}

/// A chapter number followed by a title, in a file name: "Chapter 43 - The
/// Battle", "Ch.73 The Battle Begins", "Vol.4 Chapter 28 Title".
pub open spec fn title_pattern() -> Seq<char> {
    "(?i)(?:vol\\.?\\s*\\d+\\s+)?ch(?:apter)?[._\\s]*\\d+(?:[._]\\d+)?\\s*[-\u{2013}\u{2014}:]?\\s*(.+)"@
}

/// A scanlator group in brackets at the end of a title.
pub open spec fn bracket_suffix_pattern() -> Seq<char> {
    "\\s*\\[.*?\\]\\s*$"@
}

/// The title a file name gives after its chapter number, without a trailing
/// bracketed group, trimmed; `None` when there is none.
pub open spec fn title_from_filename_spec(name: Seq<char>) -> Option<Seq<char>> {
    match regex_group(title_pattern(), file_stem(name), 1) {
        Some(Some(g)) => {
            let t = trim_seq(g);
            let without = match regex_replaced(bracket_suffix_pattern(), t, Seq::empty()) {
                Some(w) => w,
                None => t,
            };
            if trim_seq(without).len() > 0 { Some(trim_seq(without)) } else { None }
        },
        _ => None,
    }
}

/// The chapter title that a file name carries, for files without ComicInfo.
pub fn extract_title_from_filename(filename: &str) -> (r: Option<String>)
    ensures
        match r {
            Some(s) => title_from_filename_spec(filename@) == Some(s@),
            None => title_from_filename_spec(filename@) is None,
        },
{
    proof {
        reveal_strlit("");
        assert(""@ =~= Seq::<char>::empty());
    }
    let stem = cbz_file_stem(filename);
    let caps = regex_capture(
        "(?i)(?:vol\\.?\\s*\\d+\\s+)?ch(?:apter)?[._\\s]*\\d+(?:[._]\\d+)?\\s*[-\u{2013}\u{2014}:]?\\s*(.+)",
        stem.as_str(),
        1,
    );
    let g = match caps {
        Some(Some(g)) => g,
        _ => return None,
    };
    let t = trim(g.as_str());
    let without = match regex_replace("\\s*\\[.*?\\]\\s*$", t.as_str(), "") {
        Some(w) => w,
        None => t,
    };
    let title = trim(without.as_str());
    if title.as_str().unicode_len() > 0 {
        Some(title)
    } else {
        None
    }
}

/// A chapter number in a file name: "Ch.73", "Chapter 22.1", "Chapter_014",
/// with '.' or '_' before the decimals.
pub open spec fn number_pattern() -> Seq<char> {
    "(?i)ch(?:apter)?[._\\s]*(\\d+(?:[._]\\d+)?)"@
}

/// A text with every '_' turned into '.'.
pub open spec fn underscores_to_dots(s: Seq<char>) -> Seq<char> {
    s.map_values(|c: char| if c == '_' { '.' } else { c })
}

/// The text before the first '.', or all of it.
pub open spec fn before_dot(s: Seq<char>) -> Seq<char>
    decreases s.len(),
{
    if s.len() == 0 || s[0] == '.' {
        Seq::empty()
    } else {
        seq![s[0]] + before_dot(s.drop_first())
    }
}

/// The first two '.'-separated parts of a number text, joined by '.'.
pub open spec fn first_two_parts(s: Seq<char>) -> Seq<char> {
    let a = before_dot(s);
    if a.len() == s.len() {
        a
    } else {
        let rest = s.subrange(a.len() as int + 1, s.len() as int);
        a + seq!['.'] + before_dot(rest)
    }
}

/// The text of the chapter number that a file name gives, ready to be read
/// as a number; `None` when the name has none.
pub open spec fn number_text_spec(name: Seq<char>) -> Option<Seq<char>> {
    match regex_group(number_pattern(), file_stem(name), 1) {
        Some(Some(g)) => Some(first_two_parts(underscores_to_dots(g))),
        _ => None,
    }
}

fn before_dot_at(cs: &Vec<char>, from: usize) -> (r: usize)
    requires
        from <= cs@.len(),
    ensures
        from <= r <= cs@.len(),
        before_dot(cs@.subrange(from as int, cs@.len() as int)) == cs@.subrange(from as int, r as int),
        r < cs@.len() ==> cs@[r as int] == '.',
{
    let mut i = from;
    while i < cs.len() && cs[i] != '.'
        invariant
            from <= i <= cs@.len(),
            before_dot(cs@.subrange(from as int, cs@.len() as int))
                == cs@.subrange(from as int, i as int) + before_dot(cs@.subrange(i as int, cs@.len() as int)),
        decreases cs.len() - i,
    {
        proof {
            let rest = cs@.subrange(i as int, cs@.len() as int);
            assert(rest.drop_first() =~= cs@.subrange(i + 1, cs@.len() as int));
            assert(cs@.subrange(from as int, i + 1) =~= cs@.subrange(from as int, i as int) + seq![cs@[i as int]]);
        }
        i = i + 1;
    }
    proof {
        let rest = cs@.subrange(i as int, cs@.len() as int);
        assert(before_dot(rest) =~= Seq::<char>::empty());
        assert(cs@.subrange(from as int, i as int) + Seq::<char>::empty() =~= cs@.subrange(from as int, i as int));
    }
    i
}

/// The chapter number text of a file name, for files without ComicInfo.
pub fn chapter_number_text(filename: &str) -> (r: Option<String>)
    ensures
        match r {
            Some(s) => number_text_spec(filename@) == Some(s@),
            None => number_text_spec(filename@) is None,
        },
{
    let stem = cbz_file_stem(filename);
    let g = match regex_capture("(?i)ch(?:apter)?[._\\s]*(\\d+(?:[._]\\d+)?)", stem.as_str(), 1) {
        Some(Some(g)) => g,
        _ => return None,
    };
    let raw = chars_of(g.as_str());
    let mut cs: Vec<char> = Vec::new();
    let mut i: usize = 0;
    while i < raw.len()
        invariant
            i <= raw@.len(),
            cs@ == underscores_to_dots(raw@.take(i as int)),
        decreases raw.len() - i,
    {
        let c = raw[i];
        cs.push(if c == '_' { '.' } else { c });
        i = i + 1;
        assert(cs@ =~= underscores_to_dots(raw@.take(i as int)));
    }
    assert(raw@.take(raw@.len() as int) =~= raw@);
    let ghost d = cs@;
    assert(cs@.subrange(0, cs@.len() as int) =~= d);
    let a = before_dot_at(&cs, 0);
    let mut out: Vec<char> = Vec::new();
    let mut k: usize = 0;
    while k < a
        invariant
            k <= a <= cs@.len(),
            out@ == cs@.subrange(0, k as int),
        decreases a - k,
    {
        out.push(cs[k]);
        k = k + 1;
        assert(out@ =~= cs@.subrange(0, k as int));
    }
    if a < cs.len() {
        let b = before_dot_at(&cs, a + 1);
        out.push('.');
        let mut k2: usize = a + 1;
        let ghost head = out@;
        while k2 < b
            invariant
                a + 1 <= k2 <= b <= cs@.len(),
                out@ == head + cs@.subrange(a + 1, k2 as int),
            decreases b - k2,
        {
            out.push(cs[k2]);
            k2 = k2 + 1;
            assert(out@ =~= head + cs@.subrange(a + 1, k2 as int));
        }
        proof {
            assert(before_dot(d).len() == a);
            assert(out@ =~= first_two_parts(d));
        }
    } else {
        assert(out@ =~= first_two_parts(d));
    }
    Some(string_of(out.as_slice()))
}

// ---------------------------------------------------------------------------
// Classification
// ---------------------------------------------------------------------------

/// What a CBZ's ComicInfo.xml was read to say (its chapter number, a decimal,
/// is read apart).
#[derive(Debug)]
pub struct ParsedComicInfo {
    pub anilist_id: Option<u32>,
    pub title: Option<String>,
    pub has_chapter_number: bool,
    pub chapter_title: Option<String>,
    pub scanlator: Option<String>,
    pub language: Option<String>,
    pub provider_name: Option<String>,
    pub is_extra: Option<bool>,
    /// Id of the chapter, written only by this application.
    pub chapter_uuid: Option<u128>,
    pub released_at: Option<i64>,
    pub downloaded_at: Option<i64>,
    pub scraped_at: Option<i64>,
}

/// How a CBZ is offered for import (its number is read by the caller: from
/// ComicInfo for the first two tiers, from `chapter_number_text` of the file
/// name for the last).
#[derive(Debug)]
pub struct CbzClassification {
    pub import_tier: ImportTier,
    pub anilist_id: Option<u32>,
    pub detected_title: Option<String>,
    pub chapter_title: Option<String>,
    pub scanlator_group: Option<String>,
    pub language: Option<String>,
    pub provider_name: Option<String>,
    pub is_extra: Option<bool>,
    pub chapter_uuid: Option<String>,
    pub released_at: Option<i64>,
    pub downloaded_at: Option<i64>,
    pub scraped_at: Option<i64>,
}

pub open spec fn tier_spec(info: Option<ParsedComicInfo>) -> ImportTier {
    match info {
        Some(i) => if i.chapter_uuid is Some {
            ImportTier::Rebarr
        } else if i.title is Some || i.has_chapter_number || i.anilist_id is Some {
            ImportTier::ComicInfo
        } else {
            ImportTier::Filename
        },
        None => ImportTier::Filename,
    }
}

/// A ComicInfo chapter title that is kept: present and not only a number.
pub open spec fn kept_title(t: Option<String>) -> Option<Seq<char>> {
    match t {
        Some(s) => if regex_finds(generic_title_pattern(), trim_seq(s@)) == Some(true) { None } else { Some(s@) },
        None => None,
    }
}

/// The classification of a CBZ from what its ComicInfo says, if anything:
/// with a chapter id it is this application's own file and everything is
/// kept; with a series, number or AniList id it is a plain ComicInfo file,
/// whose extra flag and id are not trusted; otherwise only the file name speaks.
pub open spec fn classification_ok(info: Option<ParsedComicInfo>, name: Seq<char>, c: CbzClassification) -> bool {
    &&& c.import_tier == tier_spec(info)
    &&& match info {
        Some(i) if c.import_tier != ImportTier::Filename => {
            &&& c.anilist_id == i.anilist_id
            &&& opt_view(c.detected_title) == opt_view(i.title)
            &&& opt_view(c.chapter_title) == kept_title(i.chapter_title)
            &&& opt_view(c.scanlator_group) == opt_view(i.scanlator)
            &&& opt_view(c.language) == opt_view(i.language)
            &&& opt_view(c.provider_name) == opt_view(i.provider_name)
            &&& c.released_at == i.released_at
            &&& c.downloaded_at == i.downloaded_at
            &&& c.scraped_at == i.scraped_at
            &&& if c.import_tier == ImportTier::Rebarr {
                &&& c.is_extra == i.is_extra
                &&& c.chapter_uuid matches Some(u) && i.chapter_uuid matches Some(v) && u@ == uuid_text(v)
            } else {
                c.is_extra is None && c.chapter_uuid is None
            }
        },
        _ => {
            &&& c.anilist_id is None
            &&& c.detected_title is None
            &&& opt_view(c.chapter_title) == title_from_filename_spec(name)
            &&& c.scanlator_group is None && c.language is None && c.provider_name is None
            &&& c.is_extra is None && c.chapter_uuid is None
            &&& c.released_at is None && c.downloaded_at is None && c.scraped_at is None
        },
    }
}

fn keep_title(t: &Option<String>) -> (r: Option<String>)
    ensures
        opt_view(r) == kept_title(*t),
{
    match t {
        Some(s) => if is_generic_chapter_title(s.as_str()) { None } else { Some(s.clone()) },
        None => None,
    }
}

/// Classifies a CBZ from what its ComicInfo said, if it had one, and its name.
pub fn classify_cbz(info: Option<&ParsedComicInfo>, file_name: &str) -> (c: CbzClassification)
    ensures
        classification_ok(match info { Some(i) => Some(*i), None => None }, file_name@, c),
{
    if let Some(i) = info {
        if let Some(id) = i.chapter_uuid {
            return CbzClassification {
                import_tier: ImportTier::Rebarr,
                anilist_id: i.anilist_id,
                detected_title: clone_opt(&i.title),
                chapter_title: keep_title(&i.chapter_title),
                scanlator_group: clone_opt(&i.scanlator),
                language: clone_opt(&i.language),
                provider_name: clone_opt(&i.provider_name),
                is_extra: i.is_extra,
                chapter_uuid: Some(uuid_string(id)),
                released_at: i.released_at,
                downloaded_at: i.downloaded_at,
                scraped_at: i.scraped_at,
            };
        }
        if i.title.is_some() || i.has_chapter_number || i.anilist_id.is_some() {
            return CbzClassification {
                import_tier: ImportTier::ComicInfo,
                anilist_id: i.anilist_id,
                detected_title: clone_opt(&i.title),
                chapter_title: keep_title(&i.chapter_title),
                scanlator_group: clone_opt(&i.scanlator),
                language: clone_opt(&i.language),
                provider_name: clone_opt(&i.provider_name),
                is_extra: None,
                chapter_uuid: None,
                released_at: i.released_at,
                downloaded_at: i.downloaded_at,
                scraped_at: i.scraped_at,
            };
        }
    }
    CbzClassification {
        import_tier: ImportTier::Filename,
        anilist_id: None,
        detected_title: None,
        chapter_title: extract_title_from_filename(file_name),
        scanlator_group: None,
        language: None,
        provider_name: None,
        is_extra: None,
        chapter_uuid: None,
        released_at: None,
        downloaded_at: None,
        scraped_at: None,
    }
}

// ---------------------------------------------------------------------------
// File names of imported chapters
// ---------------------------------------------------------------------------

/// Characters that file systems refuse become '_'.
pub open spec fn safe_char(c: char) -> char {
    if c == '/' || c == '\\' || c == ':' || c == '*' || c == '?' || c == '"' || c == '<' || c == '>' || c == '|' {
        '_'
    } else {
        c
    }
}

pub open spec fn present_text(o: Option<String>) -> Option<Seq<char>> {
    match o {
        Some(s) => if s@.len() > 0 { Some(s@) } else { None },
        None => None,
    }
}

/// The name of a chapter's CBZ before sanitising: "Chapter {number}" (the
/// base, then `.variant` when the variant is not 0), then " - {title}" and
/// " [{group}]" when present and not empty.
pub open spec fn stem_text(chapter: Chapter) -> Seq<char> {
    "Chapter "@ + chapter_number_spec(chapter.chapter_base as i64, chapter.chapter_variant as i64)
        + match present_text(chapter.title) { Some(t) => " - "@ + t, None => Seq::empty() }
        + match present_text(chapter.scanlator_group) { Some(g) => " ["@ + g + "]"@, None => Seq::empty() }
}

/// The file name of a chapter's CBZ without its extension, as the downloader
/// names it.
pub fn cbz_stem(chapter: &Chapter) -> (r: String)
    ensures
        r@ == stem_text(*chapter).map_values(|c: char| safe_char(c)),
{
    let mut name = String::new();
    push_str(&mut name, "Chapter ");
    write_i64(&mut name, chapter.chapter_base as i64);
    if chapter.chapter_variant != 0 {
        push_char(&mut name, '.');
        write_i64(&mut name, chapter.chapter_variant as i64);
    }
    if let Some(t) = &chapter.title {
        if t.as_str().unicode_len() > 0 {
            push_str(&mut name, " - ");
            push_str(&mut name, t.as_str());
        }
    }
    if let Some(g) = &chapter.scanlator_group {
        if g.as_str().unicode_len() > 0 {
            push_str(&mut name, " [");
            push_str(&mut name, g.as_str());
            push_str(&mut name, "]");
        }
    }
    proof {
        assert(name@ =~= stem_text(*chapter));
    }
    let cs = chars_of(name.as_str());
    let mut out = String::new();
    let mut i: usize = 0;
    while i < cs.len()
        invariant
            i <= cs@.len(),
            cs@ == stem_text(*chapter),
            out@ == cs@.take(i as int).map_values(|c: char| safe_char(c)),
        decreases cs.len() - i,
    {
        let c = cs[i];
        let d = if c == '/' || c == '\\' || c == ':' || c == '*' || c == '?' || c == '"' || c == '<' || c == '>' || c == '|' {
            '_'
        } else {
            c
        };
        push_char(&mut out, d);
        i = i + 1;
        assert(out@ =~= cs@.take(i as int).map_values(|c: char| safe_char(c)));
    }
    assert(cs@.take(cs@.len() as int) =~= cs@);
    out
}

// ---------------------------------------------------------------------------
// Series folders
// ---------------------------------------------------------------------------

/// A folder offered as a series.
#[derive(Debug)]
pub struct FolderEntry {
    pub folder_name: String,
    pub folder_path: String,
    pub cbz_count: u32,
}

impl FolderEntry {
    pub fn copy(&self) -> (r: Self)
        ensures
            r == *self,
    {
        FolderEntry { folder_name: self.folder_name.clone(), folder_path: self.folder_path.clone(), cbz_count: self.cbz_count }
    }
}

/// Folders that are offered: named, and not hidden (a leading '.').
pub open spec fn offered(e: FolderEntry) -> bool {
    e.folder_name@.len() > 0 && e.folder_name@[0] != '.'
}

pub open spec fn offered_fn() -> spec_fn(FolderEntry) -> bool {
    |e: FolderEntry| offered(e)
}

pub open spec fn name_is(k: Seq<char>) -> spec_fn(FolderEntry) -> bool {
    |e: FolderEntry| e.folder_name@ == k
}

pub open spec fn sorted_by_name(s: Seq<FolderEntry>) -> bool {
    forall|i: int, j: int| 0 <= i < j < s.len() ==> !seq_lt(s[j].folder_name@, s[i].folder_name@)
}

/// `r` is `s` sorted by folder name, folders of equal names in their order.
pub open spec fn sorted_folders_of(r: Seq<FolderEntry>, s: Seq<FolderEntry>) -> bool {
    &&& sorted_by_name(r)
    &&& forall|k: Seq<char>| #[trigger] r.filter(name_is(k)) == s.filter(name_is(k))
}

fn name_insertion_point(r: &Vec<FolderEntry>, key: &String) -> (p: usize)
    requires
        sorted_by_name(r@),
    ensures
        p <= r@.len(),
        forall|i: int| 0 <= i < p ==> !seq_lt(key@, r@[i].folder_name@),
        forall|i: int| p <= i < r@.len() ==> seq_lt(key@, r@[i].folder_name@),
{
    let kc = chars_of(key.as_str());
    let mut p: usize = 0;
    while p < r.len() && !str_lt(kc.as_slice(), chars_of(r[p].folder_name.as_str()).as_slice())
        invariant
            p <= r@.len(),
            kc@ == key@,
            sorted_by_name(r@),
            forall|i: int| 0 <= i < p ==> !seq_lt(key@, r@[i].folder_name@),
        decreases r.len() - p,
    {
        p = p + 1;
    }
    proof {
        if p < r@.len() {
            assert forall|i: int| p <= i < r@.len() implies seq_lt(key@, r@[i].folder_name@) by {
                if i > p {
                    lemma_seq_lt_trichotomy(r@[p as int].folder_name@, r@[i].folder_name@);
                    if r@[p as int].folder_name@ != r@[i].folder_name@ {
                        lemma_seq_lt_transitive(key@, r@[p as int].folder_name@, r@[i].folder_name@);
                    }
                }
            }
        }
    }
    p
}

proof fn lemma_insert_keeps_names(r: Seq<FolderEntry>, p: int, a: FolderEntry, k: Seq<char>)
    requires
        0 <= p <= r.len(),
        forall|i: int| p <= i < r.len() ==> seq_lt(a.folder_name@, r[i].folder_name@),
    ensures
        r.insert(p, a).filter(name_is(k)) == r.push(a).filter(name_is(k)),
{
    let pred = name_is(k);
    let front = r.subrange(0, p);
    let back = r.subrange(p, r.len() as int);
    assert(r =~= front + back);
    assert(r.insert(p, a) =~= front.push(a) + back);
    Seq::filter_distributes_over_add(front.push(a), back, pred);
    Seq::filter_distributes_over_add(front, back, pred);
    front.lemma_filter_push(a, pred);
    r.lemma_filter_push(a, pred);
    if k == a.folder_name@ {
        assert forall|i: int| 0 <= i < back.len() implies !pred(back[i]) by {
            lemma_seq_lt_trichotomy(a.folder_name@, back[i].folder_name@);
        }
        assert(back.all(|x: FolderEntry| !pred(x)));
        back.lemma_all_neg_filter_empty(pred);
        assert(back.filter(pred) =~= Seq::<FolderEntry>::empty());
        assert(front.filter(pred).push(a) + back.filter(pred) =~= (front.filter(pred) + back.filter(pred)).push(a));
    }
}

proof fn lemma_insert_sorted_names(before: Seq<FolderEntry>, p: int, a: FolderEntry)
    requires
        sorted_by_name(before),
        0 <= p <= before.len(),
        forall|i: int| 0 <= i < p ==> !seq_lt(a.folder_name@, before[i].folder_name@),
        forall|i: int| p <= i < before.len() ==> seq_lt(a.folder_name@, before[i].folder_name@),
    ensures
        sorted_by_name(before.insert(p, a)),
        forall|k: Seq<char>| #[trigger] before.insert(p, a).filter(name_is(k)) == before.push(a).filter(name_is(k)),
{
    let r = before.insert(p, a);
    before.insert_ensures(p, a);
    assert forall|k: Seq<char>| #[trigger] before.insert(p, a).filter(name_is(k)) == before.push(a).filter(name_is(k)) by {
        lemma_insert_keeps_names(before, p, a, k);
    }
    assert forall|x: int, y: int| 0 <= x < y < r.len() implies !seq_lt(r[y].folder_name@, r[x].folder_name@) by {
        if x < p && y > p {
            assert(r[y] == before[y - 1]);
        } else if x == p {
            assert(r[y] == before[y - 1]);
            lemma_seq_lt_trichotomy(a.folder_name@, before[y - 1].folder_name@);
        } else if x > p {
            assert(r[x] == before[x - 1]);
            assert(r[y] == before[y - 1]);
        }
    }
}

/// The folders offered as series: the named, unhidden ones, sorted by name.
pub fn series_folders(entries: &Vec<FolderEntry>) -> (r: Vec<FolderEntry>)
    ensures
        sorted_folders_of(r@, entries@.filter(offered_fn())),
{
    let mut r: Vec<FolderEntry> = Vec::new();
    let ghost all = entries@;
    let mut i: usize = 0;
    let n = entries.len();
    while i < n
        invariant
            n == all.len(),
            entries@ == all,
            i <= n,
            sorted_by_name(r@),
            forall|k: Seq<char>| #[trigger] r@.filter(name_is(k)) == all.take(i as int).filter(offered_fn()).filter(name_is(k)),
        decreases n - i,
    {
        let a = entries[i].copy();
        let ghost pre = all.take(i as int).filter(offered_fn());
        proof {
            assert(all.take(i + 1) =~= all.take(i as int).push(a));
            all.take(i as int).lemma_filter_push(a, offered_fn());
        }
        let nc = chars_of(a.folder_name.as_str());
        if nc.len() > 0 && nc[0] != '.' {
            let p = name_insertion_point(&r, &a.folder_name);
            let ghost before = r@;
            r.insert(p, a);
            proof {
                lemma_insert_sorted_names(before, p as int, a);
                assert forall|k: Seq<char>| #[trigger] r@.filter(name_is(k)) == all.take(i + 1).filter(offered_fn()).filter(name_is(k)) by {
                    before.lemma_filter_push(a, name_is(k));
                    pre.lemma_filter_push(a, name_is(k));
                }
            }
        }
        i = i + 1;
    }
    assert(all.take(n as int) =~= all);
    r
}

// ---------------------------------------------------------------------------
// Summaries
// ---------------------------------------------------------------------------

/// The outcome of importing chapter files.
#[derive(Debug)]
pub struct ImportSummary {
    pub moved: u32,
    pub skipped: u32,
    pub errors: Vec<String>,
}

/// A series folder the user confirmed as an AniList series.
#[derive(Debug)]
pub struct ConfirmedSeriesImport {
    /// Carried for error messages only.
    pub folder_path: String,
    pub anilist_id: i32,
    pub library_id: String,
    pub relative_path: String,
}

/// A request to scan a folder of CBZ files.
#[derive(Debug)]
pub struct ScanRequest {
    pub source_dir: String,
}

/// A request to scan a folder of series folders.
#[derive(Debug)]
pub struct SeriesScanRequest {
    pub source_dir: String,
}

/// A request to import confirmed series folders; the chapter list of each
/// series is built afterwards when `queue_chapter_scan` is set.
#[derive(Debug)]
pub struct SeriesExecuteRequest {
    pub imports: Vec<ConfirmedSeriesImport>,
    pub queue_chapter_scan: bool,
}

/// An import request must name at least one item: one that names none is
/// refused (400).
pub fn check_imports_given(count: usize) -> (r: Result<(), ApiFailure>)
    ensures
        count == 0 <==> r is Err,
        r matches Err(f) ==> is_failure(f, ApiStatus::BadRequest, "no imports provided"@),
{
    if count == 0 {
        Err(bad_request("no imports provided"))
    } else {
        Ok(())
    }
}

/// The outcome of importing series folders.
#[derive(Debug)]
pub struct SeriesImportSummary {
    pub added: u32,
    pub skipped_duplicates: u32,
    pub errors: Vec<String>,
    /// One entry per import, in order: the id of the manga made or found, or
    /// an empty text when it failed.
    pub manga_ids: Vec<String>,
}

/// What became of one series folder.
pub enum SeriesImportOutcome {
    /// A manga was made with this id.
    Added(u128),
    /// The library already had the series, under this id.
    Duplicate(u128),
    /// It failed, for this reason.
    Failed(String),
}

/// An error line: the file or folder, then the reason.
pub open spec fn error_line(path: Seq<char>, reason: Seq<char>) -> Seq<char> {
    path + ": "@ + reason
}

fn error_text(path: &str, reason: &str) -> (r: String)
    ensures
        r@ == error_line(path@, reason@),
{
    let mut s = String::new();
    push_str(&mut s, path);
    push_str(&mut s, ": ");
    push_str(&mut s, reason);
    s
}

impl ImportSummary {
    pub fn new() -> (r: Self)
        ensures
            r.moved == 0 && r.skipped == 0 && r.errors@.len() == 0,
    {
        ImportSummary { moved: 0, skipped: 0, errors: Vec::new() }
    }

    /// Counts a file that was imported.
    pub fn record_moved(&mut self)
        requires
            old(self).moved < u32::MAX,
        ensures
            final(self).moved == old(self).moved + 1,
            final(self).skipped == old(self).skipped,
            final(self).errors@ == old(self).errors@,
    {
        self.moved = self.moved + 1;
    }

    /// Counts a file that failed, with its error line.
    pub fn record_failed(&mut self, path: &str, reason: &str)
        requires
            old(self).skipped < u32::MAX,
        ensures
            final(self).moved == old(self).moved,
            final(self).skipped == old(self).skipped + 1,
            views_of_errors(final(self).errors@) == views_of_errors(old(self).errors@).push(error_line(path@, reason@)),
    {
        self.errors.push(error_text(path, reason));
        self.skipped = self.skipped + 1;
        proof {
            assert(views_of_errors(self.errors@) =~= views_of_errors(old(self).errors@).push(error_line(path@, reason@)));
        }
    }
}

pub open spec fn views_of_errors(s: Seq<String>) -> Seq<Seq<char>> {
    s.map_values(|e: String| e@)
}

impl SeriesImportSummary {
    pub fn new() -> (r: Self)
        ensures
            r.added == 0 && r.skipped_duplicates == 0 && r.errors@.len() == 0 && r.manga_ids@.len() == 0,
    {
        SeriesImportSummary { added: 0, skipped_duplicates: 0, errors: Vec::new(), manga_ids: Vec::new() }
    }

    /// Records what became of the folder at `folder_path`: its id, or an empty
    /// text and an error line.
    pub fn record(&mut self, folder_path: &str, outcome: SeriesImportOutcome)
        requires
            outcome is Added ==> old(self).added < u32::MAX,
            outcome is Duplicate ==> old(self).skipped_duplicates < u32::MAX,
        ensures
            match outcome {
                SeriesImportOutcome::Added(id) => {
                    &&& final(self).added == old(self).added + 1
                    &&& final(self).skipped_duplicates == old(self).skipped_duplicates
                    &&& views_of_errors(final(self).errors@) == views_of_errors(old(self).errors@)
                    &&& views_of_errors(final(self).manga_ids@) == views_of_errors(old(self).manga_ids@).push(uuid_text(id))
                },
                SeriesImportOutcome::Duplicate(id) => {
                    &&& final(self).added == old(self).added
                    &&& final(self).skipped_duplicates == old(self).skipped_duplicates + 1
                    &&& views_of_errors(final(self).errors@) == views_of_errors(old(self).errors@)
                    &&& views_of_errors(final(self).manga_ids@) == views_of_errors(old(self).manga_ids@).push(uuid_text(id))
                },
                SeriesImportOutcome::Failed(reason) => {
                    &&& final(self).added == old(self).added
                    &&& final(self).skipped_duplicates == old(self).skipped_duplicates
                    &&& views_of_errors(final(self).errors@) == views_of_errors(old(self).errors@).push(error_line(folder_path@, reason@))
                    &&& views_of_errors(final(self).manga_ids@) == views_of_errors(old(self).manga_ids@).push(Seq::empty())
                },
            },
    {
        let ghost errors0 = self.errors@;
        let ghost ids0 = self.manga_ids@;
        match outcome {
            SeriesImportOutcome::Added(id) => {
                self.manga_ids.push(uuid_string(id));
                self.added = self.added + 1;
            },
            SeriesImportOutcome::Duplicate(id) => {
                self.manga_ids.push(uuid_string(id));
                self.skipped_duplicates = self.skipped_duplicates + 1;
            },
            SeriesImportOutcome::Failed(reason) => {
                self.errors.push(error_text(folder_path, reason.as_str()));
                self.manga_ids.push(String::new());
            },
        }
        proof {
            assert(views_of_errors(self.errors@) =~= views_of_errors(errors0) || views_of_errors(self.errors@) =~= views_of_errors(errors0).push(views_of_errors(self.errors@).last()));
            assert(views_of_errors(self.manga_ids@) =~= views_of_errors(ids0).push(views_of_errors(self.manga_ids@).last()));
        }
    }
}

/// Adds an id to a list of ids unless it is there already.
pub fn push_unique(ids: &mut Vec<u128>, id: u128)
    ensures
        old(ids)@.contains(id) ==> final(ids)@ == old(ids)@,
        !old(ids)@.contains(id) ==> final(ids)@ == old(ids)@.push(id),
{
    let mut i: usize = 0;
    while i < ids.len()
        invariant
            i <= ids@.len(),
            ids@ == old(ids)@,
            forall|j: int| 0 <= j < i ==> ids@[j] != id,
        decreases ids.len() - i,
    {
        if ids[i] == id {
            return;
        }
        i = i + 1;
    }
    ids.push(id);
}

// ---------------------------------------------------------------------------
// Chapters made by an import
// ---------------------------------------------------------------------------

/// The identity and origin of an imported chapter (its number, a decimal,
/// is read by the caller).
#[derive(Debug)]
pub struct ImportedChapter {
    pub id: u128,
    pub language: String,
    pub provider_name: String,
    pub downloaded_at: i64,
}

/// What a confirmed import makes of its chapter: the id written in the file
/// when it reads as a UUID (else a fresh one), "EN" without a language,
/// "Local" without a provider, and now when no download time is known.
pub fn plan_imported_chapter(
    chapter_uuid: Option<&str>,
    language: Option<&str>,
    provider_name: Option<&str>,
    downloaded_at: Option<i64>,
    now: i64,
) -> (c: ImportedChapter)
    ensures
        chapter_uuid matches Some(t) && uuid_parsed(t@) is Some ==> Some(c.id) == uuid_parsed(chapter_uuid.unwrap()@),
        c.language@ == match language { Some(l) => l@, None => "EN"@ },
        c.provider_name@ == match provider_name { Some(p) => p@, None => "Local"@ },
        c.downloaded_at == match downloaded_at { Some(t) => t, None => now },
{
    let parsed = match chapter_uuid {
        Some(t) => parse_uuid(t),
        None => None,
    };
    let id = match parsed {
        Some(u) => u,
        None => new_v4(),
    };
    let language = match language {
        Some(l) => string_of(chars_of(l).as_slice()),
        None => string_of(chars_of("EN").as_slice()),
    };
    let provider_name = match provider_name {
        Some(p) => string_of(chars_of(p).as_slice()),
        None => string_of(chars_of("Local").as_slice()),
    };
    ImportedChapter {
        id,
        language,
        provider_name,
        downloaded_at: match downloaded_at {
            Some(t) => t,
            None => now,
        },
    }
}

} // verus!
