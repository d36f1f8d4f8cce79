//! ComicInfo.xml generation: the series-level file placed next to the chapters
//! and the chapter-level file embedded in every CBZ, read by comic readers
//! such as Komga and Kavita.

use vstd::prelude::*;
use crate::text::{contains_spec, int_digits, nat_digits, opt_view, push_char, push_str, write_i64, write_u64};

verus! {

/// Series metadata that ComicInfo.xml carries.
#[derive(Debug)]
pub struct MangaMetadata {
    pub title: String,
    /// Romanised title.
    pub title_roman: String,
    /// Title in the original language.
    pub title_og: String,
    pub synopsis: Option<String>,
    pub start_year: Option<i32>,
    pub tags: Vec<String>,
}

/// A series as ComicInfo generation sees it.
#[derive(Debug)]
pub struct Manga {
    pub anilist_id: Option<u32>,
    pub metadata: MangaMetadata,
}

/// A chapter as ComicInfo generation sees it.
#[derive(Debug)]
pub struct Chapter {
    pub chapter_base: i32,
    pub chapter_variant: i32,
    pub title: Option<String>,
    /// Display form of the chapter number, such as `12` or `12.5`.
    pub number_raw: String,
    pub volume: Option<i32>,
    pub scanlator_group: Option<String>,
}

// ---------------------------------------------------------------------------
// XML helpers
// ---------------------------------------------------------------------------

/// The escaped form of one character: `&`, `<`, `>`, `"` and `'` become entities.
pub open spec fn escape_char(c: char) -> Seq<char> {
    if c == '&' {
        "&amp;"@
    } else if c == '<' {
        "&lt;"@
    } else if c == '>' {
        "&gt;"@
    } else if c == '"' {
        "&quot;"@
    } else if c == '\'' {
        "&apos;"@
    } else {
        seq![c]
    }
}

/// Text with the XML special characters escaped, character by character.
pub open spec fn xml_escape_spec(s: Seq<char>) -> Seq<char>
    decreases s.len(),
{
    if s.len() == 0 {
        s
    } else {
        xml_escape_spec(s.drop_last()) + escape_char(s.last())
    }
}

fn write_escaped(out: &mut String, s: &str)
    ensures
        final(out)@ == old(out)@ + xml_escape_spec(s@),
{
    let n = s.unicode_len();
    let mut i: usize = 0;
    assert(s@.take(0) =~= Seq::<char>::empty());
    assert(out@ =~= old(out)@ + xml_escape_spec(s@.take(0)));
    while i < n
        invariant
            n == s@.len(),
            i <= n,
            out@ == old(out)@ + xml_escape_spec(s@.take(i as int)),
        decreases n - i,
    {
        let c = s.get_char(i);
        let ghost before = out@;
        if c == '&' {
            push_str(out, "&amp;");
        } else if c == '<' {
            push_str(out, "&lt;");
        } else if c == '>' {
            push_str(out, "&gt;");
        } else if c == '"' {
            push_str(out, "&quot;");
        } else if c == '\'' {
            push_str(out, "&apos;");
        } else {
            push_char(out, c);
            assert(out@ =~= before + seq![c]);
        }
        assert(s@.take(i + 1).drop_last() =~= s@.take(i as int));
        assert(s@.take(i + 1).last() == c);
        i = i + 1;
        assert(out@ =~= old(out)@ + xml_escape_spec(s@.take(i as int)));
    }
    assert(s@.take(n as int) =~= s@);
}

/// Escapes the characters that are special in XML element and attribute values.
pub fn xml_escape(s: &str) -> (r: String)
    ensures
        r@ == xml_escape_spec(s@),
{
    let mut r = String::new();
    write_escaped(&mut r, s);
    assert(r@ =~= xml_escape_spec(s@));
    r
}

/// `  <tag>escaped value</tag>` and a newline, for a non-empty value; nothing otherwise.
pub open spec fn str_elem_spec(tag: Seq<char>, value: Option<Seq<char>>) -> Seq<char> {
    match value {
        Some(v) => if v.len() > 0 {
            "  <"@ + tag + ">"@ + xml_escape_spec(v) + "</"@ + tag + ">\n"@
        } else {
            Seq::empty()
        },
        None => Seq::empty(),
    }
}

/// `  <tag>number</tag>` and a newline, when there is a number; nothing otherwise.
pub open spec fn int_elem_spec(tag: Seq<char>, value: Option<int>) -> Seq<char> {
    match value {
        Some(v) => "  <"@ + tag + ">"@ + int_digits(v) + "</"@ + tag + ">\n"@,
        None => Seq::empty(),
    }
}

fn write_str_elem(out: &mut String, tag: &str, value: Option<&str>)
    ensures
        final(out)@ == old(out)@ + str_elem_spec(tag@, match value { Some(v) => Some(v@), None => None }),
{
    match value {
        Some(v) => {
            if v.unicode_len() > 0 {
                push_str(out, "  <");
                push_str(out, tag);
                push_str(out, ">");
                write_escaped(out, v);
                push_str(out, "</");
                push_str(out, tag);
                push_str(out, ">\n");
                assert(final(out)@ =~= old(out)@ + str_elem_spec(tag@, Some(v@)));
            } else {
                assert(final(out)@ =~= old(out)@ + str_elem_spec(tag@, Some(v@)));
            }
        },
        None => {
            assert(final(out)@ =~= old(out)@ + str_elem_spec(tag@, None));
        },
    }
}

/// Emits an optional string element; the tag is left out when the value is missing or empty.
pub fn opt_str_elem(tag: &str, value: Option<&str>) -> (r: String)
    ensures
        r@ == str_elem_spec(tag@, match value { Some(v) => Some(v@), None => None }),
{
    let mut r = String::new();
    write_str_elem(&mut r, tag, value);
    assert(r@ =~= str_elem_spec(tag@, match value { Some(v) => Some(v@), None => None }));
    r
}

fn write_int_elem(out: &mut String, tag: &str, value: Option<i64>)
    ensures
        final(out)@ == old(out)@ + int_elem_spec(tag@, match value { Some(v) => Some(v as int), None => None }),
{
    match value {
        Some(v) => {
            push_str(out, "  <");
            push_str(out, tag);
            push_str(out, ">");
            write_i64(out, v);
            push_str(out, "</");
            push_str(out, tag);
            push_str(out, ">\n");
            assert(final(out)@ =~= old(out)@ + int_elem_spec(tag@, Some(v as int)));
        },
        None => {
            assert(final(out)@ =~= old(out)@ + int_elem_spec(tag@, None));
        },
    }
}

/// Emits an optional integer element; the tag is left out when there is no value.
pub fn opt_int_elem(tag: &str, value: Option<i64>) -> (r: String)
    ensures
        r@ == int_elem_spec(tag@, match value { Some(v) => Some(v as int), None => None }),
{
    let mut r = String::new();
    write_int_elem(&mut r, tag, value);
    assert(r@ =~= int_elem_spec(tag@, match value { Some(v) => Some(v as int), None => None }));
    r
}

// ---------------------------------------------------------------------------
// Shared series fields
// ---------------------------------------------------------------------------

/// The XML declaration and the opening `ComicInfo` tag.
pub open spec fn xml_header() -> Seq<char> {
    "<?xml version=\"1.0\" encoding=\"utf-8\"?>\n\
     <ComicInfo xmlns:xsd=\"http://www.w3.org/2001/XMLSchema\"\n\
                xmlns:xsi=\"http://www.w3.org/2001/XMLSchema-instance\">\n"@
}

/// Alternate series name: the romanised title when it differs from the title,
/// otherwise the native title, otherwise none.
pub open spec fn alt_series_spec(m: MangaMetadata) -> Option<Seq<char>> {
    if m.title_roman@.len() > 0 && m.title_roman@ != m.title@ {
        Some(m.title_roman@)
    } else if m.title_og@.len() > 0 {
        Some(m.title_og@)
    } else {
        None
    }
}

/// Items joined with `sep` between them.
pub open spec fn join_spec(items: Seq<Seq<char>>, sep: Seq<char>) -> Seq<char>
    decreases items.len(),
{
    if items.len() == 0 {
        Seq::empty()
    } else if items.len() == 1 {
        items[0]
    } else {
        join_spec(items.drop_last(), sep) + sep + items.last()
    }
}

/// The genre list: tags joined by ", ", or none without tags.
pub open spec fn genre_spec(m: MangaMetadata) -> Option<Seq<char>> {
    if m.tags@.len() == 0 {
        None
    } else {
        Some(join_spec(m.tags@.map_values(|t: String| t@), ", "@))
    }
}

/// The AniList page of the series, when it is known there.
pub open spec fn web_spec(m: Manga) -> Option<Seq<char>> {
    match m.anilist_id {
        Some(id) => Some("https://anilist.co/manga/"@ + nat_digits(id as nat)),
        None => None,
    }
}

/// A year, as an integer.
pub open spec fn opt_i32(v: Option<i32>) -> Option<int> {
    match v {
        Some(y) => Some(y as int),
        None => None,
    }
}

fn alt_series(m: &MangaMetadata) -> (r: Option<&str>)
    ensures
        match r { Some(s) => Some(s@), None => None } == alt_series_spec(*m),
{
    if m.title_roman.as_str().unicode_len() > 0 && !(m.title_roman == m.title) {
        Some(m.title_roman.as_str())
    } else if m.title_og.as_str().unicode_len() > 0 {
        Some(m.title_og.as_str())
    } else {
        None
    }
}

/// The tags joined with ", ".
pub fn join_tags(tags: &Vec<String>) -> (r: String)
    ensures
        r@ == join_spec(tags@.map_values(|t: String| t@), ", "@),
{
    let ghost tv = tags@.map_values(|t: String| t@);
    let mut r = String::new();
    let mut i: usize = 0;
    assert(tv.take(0) =~= Seq::<Seq<char>>::empty());
    while i < tags.len()
        invariant
            i <= tags@.len(),
            tv == tags@.map_values(|t: String| t@),
            r@ == join_spec(tv.take(i as int), ", "@),
        decreases tags.len() - i,
    {
        assert(tv.take(i + 1).drop_last() =~= tv.take(i as int));
        assert(tv.take(i + 1).last() == tags@[i as int]@);
        if i > 0 {
            push_str(&mut r, ", ");
        } else {
            assert(r@ =~= Seq::<char>::empty());
        }
        push_str(&mut r, tags[i].as_str());
        i = i + 1;
        assert(r@ =~= join_spec(tv.take(i as int), ", "@));
    }
    assert(tv.take(tags@.len() as int) =~= tv);
    r
}

fn genre(m: &MangaMetadata) -> (r: Option<String>)
    ensures
        opt_view(r) == genre_spec(*m),
{
    if m.tags.len() == 0 {
        None
    } else {
        Some(join_tags(&m.tags))
    }
}

fn web(m: &Manga) -> (r: Option<String>)
    ensures
        opt_view(r) == web_spec(*m),
{
    match m.anilist_id {
        Some(id) => {
            let mut s = String::new();
            push_str(&mut s, "https://anilist.co/manga/");
            write_u64(&mut s, id as u64);
            assert(s@ =~= "https://anilist.co/manga/"@ + nat_digits(id as nat));
            Some(s)
        },
        None => None,
    }
}

fn opt_as_str(v: &Option<String>) -> (r: Option<&str>)
    ensures
        match r { Some(s) => Some(s@), None => None } == opt_view(*v),
{
    match v {
        Some(s) => Some(s.as_str()),
        None => None,
    }
}

fn opt_year(v: Option<i32>) -> (r: Option<i64>)
    ensures
        match r { Some(x) => Some(x as int), None => None } == opt_i32(v),
{
    match v {
        Some(y) => Some(y as i64),
        None => None,
    }
}

// ---------------------------------------------------------------------------
// Series-level ComicInfo.xml
// ---------------------------------------------------------------------------

/// The series-level ComicInfo.xml.
pub open spec fn series_xml_spec(manga: Manga) -> Seq<char> {
    let m = manga.metadata;
    xml_header()
        + str_elem_spec("Series"@, Some(m.title@))
        + str_elem_spec("AlternateSeries"@, alt_series_spec(m))
        + str_elem_spec("Summary"@, opt_view(m.synopsis))
        + int_elem_spec("Year"@, opt_i32(m.start_year))
        + str_elem_spec("Genre"@, genre_spec(m))
        + "  <Manga>Yes</Manga>\n"@
        + str_elem_spec("Web"@, web_spec(manga))
        + "</ComicInfo>\n"@
}

/// Generates the series-level ComicInfo.xml, placed at `{series_dir}/ComicInfo.xml`
/// so that comic readers pick up series metadata without opening any CBZ.
pub fn generate_series_xml(manga: &Manga) -> (r: String)
    ensures
        r@ == series_xml_spec(*manga),
{
    let m = &manga.metadata;
    let alt = alt_series(m);
    let genre = genre(m);
    let web = web(manga);
    let mut xml = String::new();
    push_str(&mut xml, "<?xml version=\"1.0\" encoding=\"utf-8\"?>\n\
         <ComicInfo xmlns:xsd=\"http://www.w3.org/2001/XMLSchema\"\n\
                    xmlns:xsi=\"http://www.w3.org/2001/XMLSchema-instance\">\n");
    write_str_elem(&mut xml, "Series", Some(m.title.as_str()));
    write_str_elem(&mut xml, "AlternateSeries", alt);
    write_str_elem(&mut xml, "Summary", opt_as_str(&m.synopsis));
    write_int_elem(&mut xml, "Year", opt_year(m.start_year));
    write_str_elem(&mut xml, "Genre", opt_as_str(&genre));
    push_str(&mut xml, "  <Manga>Yes</Manga>\n");
    write_str_elem(&mut xml, "Web", opt_as_str(&web));
    push_str(&mut xml, "</ComicInfo>\n");
    assert(xml@ =~= series_xml_spec(*manga));
    xml
}

// ---------------------------------------------------------------------------
// Chapter-level ComicInfo.xml (embedded in CBZ)
// ---------------------------------------------------------------------------

/// The page count element, present only for a positive count.
pub open spec fn page_count_spec(page_count: usize) -> Seq<char> {
    if page_count > 0 {
        "  <PageCount>"@ + nat_digits(page_count as nat) + "</PageCount>\n"@
    } else {
        Seq::empty()
    }
}

/// The chapter-level ComicInfo.xml: chapter fields, the series fields, scanlator and page count.
pub open spec fn chapter_xml_spec(manga: Manga, chapter: Chapter, page_count: usize) -> Seq<char> {
    let m = manga.metadata;
    xml_header()
        + str_elem_spec("Title"@, opt_view(chapter.title))
        + str_elem_spec("Series"@, Some(m.title@))
        + str_elem_spec("AlternateSeries"@, alt_series_spec(m))
        + "  <Number>"@ + xml_escape_spec(chapter.number_raw@) + "</Number>\n"@
        + int_elem_spec("Volume"@, opt_i32(chapter.volume))
        + int_elem_spec("Year"@, opt_i32(m.start_year))
        + str_elem_spec("Summary"@, opt_view(m.synopsis))
        + str_elem_spec("Genre"@, genre_spec(m))
        + "  <Manga>Yes</Manga>\n"@
        + str_elem_spec("Web"@, web_spec(manga))
        + str_elem_spec("ScanInformation"@, opt_view(chapter.scanlator_group))
        + page_count_spec(page_count)
        + "</ComicInfo>\n"@
}

/// Generates the chapter-level ComicInfo.xml embedded in a CBZ: all series fields
/// plus chapter number, title, volume, scanlator group and page count.
pub fn generate_chapter_xml(manga: &Manga, chapter: &Chapter, page_count: usize) -> (r: String)
    ensures
        r@ == chapter_xml_spec(*manga, *chapter, page_count),
{
    let m = &manga.metadata;
    let alt = alt_series(m);
    let genre = genre(m);
    let web = web(manga);
    let mut xml = String::new();
    push_str(&mut xml, "<?xml version=\"1.0\" encoding=\"utf-8\"?>\n\
         <ComicInfo xmlns:xsd=\"http://www.w3.org/2001/XMLSchema\"\n\
                    xmlns:xsi=\"http://www.w3.org/2001/XMLSchema-instance\">\n");
    write_str_elem(&mut xml, "Title", opt_as_str(&chapter.title));
    write_str_elem(&mut xml, "Series", Some(m.title.as_str()));
    write_str_elem(&mut xml, "AlternateSeries", alt);
    push_str(&mut xml, "  <Number>");
    write_escaped(&mut xml, chapter.number_raw.as_str());
    push_str(&mut xml, "</Number>\n");
    write_int_elem(&mut xml, "Volume", opt_year(chapter.volume));
    write_int_elem(&mut xml, "Year", opt_year(m.start_year));
    write_str_elem(&mut xml, "Summary", opt_as_str(&m.synopsis));
    write_str_elem(&mut xml, "Genre", opt_as_str(&genre));
    push_str(&mut xml, "  <Manga>Yes</Manga>\n");
    write_str_elem(&mut xml, "Web", opt_as_str(&web));
    write_str_elem(&mut xml, "ScanInformation", opt_as_str(&chapter.scanlator_group));
    if page_count > 0 {
        push_str(&mut xml, "  <PageCount>");
        write_u64(&mut xml, page_count as u64);
        push_str(&mut xml, "</PageCount>\n");
    }
    push_str(&mut xml, "</ComicInfo>\n");
    assert(xml@ =~= chapter_xml_spec(*manga, *chapter, page_count));
    xml
}

/// The series elements, in the order the series-level file writes them.
pub open spec fn series_elements(manga: Manga) -> Seq<Seq<char>> {
    let m = manga.metadata;
    seq![
        str_elem_spec("Series"@, Some(m.title@)),
        str_elem_spec("AlternateSeries"@, alt_series_spec(m)),
        str_elem_spec("Summary"@, opt_view(m.synopsis)),
        int_elem_spec("Year"@, opt_i32(m.start_year)),
        str_elem_spec("Genre"@, genre_spec(m)),
        "  <Manga>Yes</Manga>\n"@,
        str_elem_spec("Web"@, web_spec(manga)),
    ]
}

proof fn lemma_contains_end(a: Seq<char>, b: Seq<char>)
    ensures
        contains_spec(a + b, b),
{
    assert((a + b).subrange(a.len() as int, (a.len() + b.len()) as int) =~= b);
}

proof fn lemma_contains_grow(a: Seq<char>, b: Seq<char>, p: Seq<char>)
    requires
        contains_spec(a, p),
    ensures
        contains_spec(a + b, p),
{
    let i = choose|i: int| 0 <= i && i + p.len() <= a.len() && #[trigger] a.subrange(i, i + p.len()) == p;
    assert((a + b).subrange(i, i + p.len()) =~= a.subrange(i, i + p.len()));
}

proof fn lemma_contains_grow3(a: Seq<char>, b: Seq<char>, c: Seq<char>, d: Seq<char>, p: Seq<char>)
    requires
        contains_spec(a, p),
    ensures
        contains_spec(a + b + c + d, p),
{
    lemma_contains_grow(a, b, p);
    lemma_contains_grow(a + b, c, p);
    lemma_contains_grow(a + b + c, d, p);
}

proof fn lemma_file_pieces(
    h: Seq<char>, t: Seq<char>, e0: Seq<char>, e1: Seq<char>, n: Seq<char>, v: Seq<char>,
    e3: Seq<char>, e2: Seq<char>, e4: Seq<char>, e5: Seq<char>, e6: Seq<char>, z: Seq<char>,
)
    ensures
        contains_spec(h + t + e0 + e1 + n + v + e3 + e2 + e4 + e5 + e6 + z, e0),
        contains_spec(h + t + e0 + e1 + n + v + e3 + e2 + e4 + e5 + e6 + z, e1),
        contains_spec(h + t + e0 + e1 + n + v + e3 + e2 + e4 + e5 + e6 + z, n),
        contains_spec(h + t + e0 + e1 + n + v + e3 + e2 + e4 + e5 + e6 + z, e3),
        contains_spec(h + t + e0 + e1 + n + v + e3 + e2 + e4 + e5 + e6 + z, e2),
        contains_spec(h + t + e0 + e1 + n + v + e3 + e2 + e4 + e5 + e6 + z, e4),
        contains_spec(h + t + e0 + e1 + n + v + e3 + e2 + e4 + e5 + e6 + z, e5),
        contains_spec(h + t + e0 + e1 + n + v + e3 + e2 + e4 + e5 + e6 + z, e6),
{
    let a0 = h + t;
    let a1 = a0 + e0;
    let a2 = a1 + e1;
    let a3 = a2 + n;
    let a4 = a3 + v;
    let a5 = a4 + e3;
    let a6 = a5 + e2;
    let a7 = a6 + e4;
    let a8 = a7 + e5;
    let a9 = a8 + e6;
    lemma_contains_end(a0, e0);
    lemma_contains_end(a1, e1);
    lemma_contains_end(a2, n);
    lemma_contains_end(a4, e3);
    lemma_contains_end(a5, e2);
    lemma_contains_end(a6, e4);
    lemma_contains_end(a7, e5);
    lemma_contains_end(a8, e6);
    lemma_contains_grow(a9, z, e6);
    lemma_contains_grow3(a8, e6, z, Seq::empty(), e5);
    assert(a8 + e6 + z + Seq::<char>::empty() =~= a9 + z);
    lemma_contains_grow3(a7, e5, e6, z, e4);
    lemma_contains_grow3(a6, e4, e5, e6, e2);
    lemma_contains_grow(a9, z, e2);
    lemma_contains_grow3(a5, e2, e4, e5, e3);
    lemma_contains_grow(a8, e6, e3);
    lemma_contains_grow(a9, z, e3);
    lemma_contains_grow3(a3, v, e3, e2, n);
    lemma_contains_grow3(a6, e4, e5, e6, n);
    lemma_contains_grow(a9, z, n);
    lemma_contains_grow3(a2, n, v, e3, e1);
    lemma_contains_grow3(a5, e2, e4, e5, e1);
    lemma_contains_grow(a8, e6, e1);
    lemma_contains_grow(a9, z, e1);
    lemma_contains_grow3(a1, e1, n, v, e0);
    lemma_contains_grow3(a4, e3, e2, e4, e0);
    lemma_contains_grow3(a7, e5, e6, z, e0);
}

/// The series-level file is the header, the series elements in order and the
/// closing tag; the chapter-level file carries each of those elements
/// unchanged, and its chapter number element.
pub proof fn law_chapter_xml_carries_series_fields(manga: Manga, chapter: Chapter, page_count: usize)
    ensures
        ({
            let e = series_elements(manga);
            series_xml_spec(manga) == xml_header() + e[0] + e[1] + e[2] + e[3] + e[4] + e[5] + e[6] + "</ComicInfo>\n"@
        }),
        forall|k: int| 0 <= k < series_elements(manga).len()
            ==> contains_spec(chapter_xml_spec(manga, chapter, page_count), #[trigger] series_elements(manga)[k]),
        contains_spec(
            chapter_xml_spec(manga, chapter, page_count),
            "  <Number>"@ + xml_escape_spec(chapter.number_raw@) + "</Number>\n"@,
        ),
{
    let e = series_elements(manga);
    let h = xml_header();
    let t = str_elem_spec("Title"@, opt_view(chapter.title));
    let n = "  <Number>"@ + xml_escape_spec(chapter.number_raw@) + "</Number>\n"@;
    let v = int_elem_spec("Volume"@, opt_i32(chapter.volume));
    let z = str_elem_spec("ScanInformation"@, opt_view(chapter.scanlator_group))
        + page_count_spec(page_count) + "</ComicInfo>\n"@;
    let c = chapter_xml_spec(manga, chapter, page_count);
    assert(c =~= h + t + e[0] + e[1] + n + v + e[3] + e[2] + e[4] + e[5] + e[6] + z);
    lemma_file_pieces(h, t, e[0], e[1], n, v, e[3], e[2], e[4], e[5], e[6], z);
    assert forall|k: int| 0 <= k < e.len() implies contains_spec(c, #[trigger] e[k]) by {
        if k == 0 {} else if k == 1 {} else if k == 2 {} else if k == 3 {} else if k == 4 {} else if k == 5 {} else {}
    }
}

} // verus!
