//! Deterministic identifiers: name-based (version 5) UUIDs for libraries,
//! manga and chapters, so that the same thing gets the same id on every
//! install, and the text form of a UUID.
//!
//! A UUID is held as its 128-bit value, most significant byte first.

use vstd::prelude::*;
use crate::text::{
    int_digits, nat_digits, push_char, push_str, to_uppercase, unicode_uppercase, write_i64, write_u64,
};

verus! {

/// Namespace of library ids.
pub const LIBRARY_NAMESPACE: u128 = 0x3be1_7f22_84c0_4db9_a255_001f_6e3c_9105;

/// Namespace of manga ids.
pub const MANGA_NAMESPACE: u128 = 0xc27a_5f91_03e8_4b20_b16d_00d4_8e2f_73a1;

/// Namespace of chapter ids. It must never change: every stored chapter id
/// derives from it.
pub const CHAPTER_NAMESPACE: u128 = 0x7a2f_4e10_c13b_5a80_b4e2_00c0_9d1a_77f3;

/// The version 5 UUID of a name (its UTF-8 bytes) in a namespace: a SHA-1
/// based value that depends on the two alone.
pub uninterp spec fn uuid_v5(namespace: u128, name: Seq<char>) -> u128;

/// `uuid::Uuid::new_v5` on the namespace's UUID and the name's UTF-8 bytes,
/// read back as a 128-bit value. The contract names the result; nothing more
/// is claimed of it.
#[verifier::external_body]
fn new_v5(namespace: u128, name: &str) -> (r: u128)
    ensures
        r == uuid_v5(namespace, name@),
{
    uuid::Uuid::new_v5(&uuid::Uuid::from_u128(namespace), name.as_bytes()).as_u128()
}

/// `uuid::Uuid::new_v4`: a fresh random UUID, read as a 128-bit value.
/// Nothing is claimed of it: it is random.
#[verifier::external_body]
pub(crate) fn new_v4() -> u128 {
    uuid::Uuid::new_v4().as_u128()
}

/// Lowercase hexadecimal digit.
pub open spec fn hex_char(d: nat) -> char {
    if d < 10 {
        ((d + 48) as u8) as char
    } else {
        ((d + 87) as u8) as char
    }
}

/// The last `n` hexadecimal digits of `v`, most significant first.
pub open spec fn hex_digits(v: nat, n: nat) -> Seq<char>
    decreases n,
{
    if n == 0 {
        Seq::empty()
    } else {
        hex_digits(v / 16, (n - 1) as nat).push(hex_char(v % 16))
    }
}

/// The hyphenated text of a UUID: 32 lowercase hexadecimal digits grouped
/// 8-4-4-4-12.
pub open spec fn uuid_text(u: u128) -> Seq<char> {
    let h = hex_digits(u as nat, 32);
    h.subrange(0, 8) + seq!['-'] + h.subrange(8, 12) + seq!['-'] + h.subrange(12, 16) + seq!['-']
        + h.subrange(16, 20) + seq!['-'] + h.subrange(20, 32)
}

fn hex_digit(d: u128) -> (c: char)
    requires
        d < 16,
    ensures
        c == hex_char(d as nat),
{
    if d < 10 {
        ((d + 48) as u8) as char
    } else {
        ((d + 87) as u8) as char
    }
}

proof fn lemma_hex_digits_len(v: nat, n: nat)
    ensures
        hex_digits(v, n).len() == n,
    decreases n,
{
    if n > 0 {
        lemma_hex_digits_len(v / 16, (n - 1) as nat);
    }
}

/// The text form of a UUID, as `Display` writes it.
pub fn uuid_string(u: u128) -> (s: String)
    ensures
        s@ == uuid_text(u),
{
    // Digits from the least significant up.
    let mut rev: Vec<char> = Vec::new();
    let mut v: u128 = u;
    let mut i: usize = 0;
    while i < 32
        invariant
            i <= 32,
            rev@.len() == i,
            forall|k: int| 0 <= k < i ==> rev@[k] == hex_digits(u as nat, 32)[31 - k],
            hex_digits(v as nat, (32 - i) as nat) + rev@.reverse() == hex_digits(u as nat, 32),
        decreases 32 - i,
    {
        let d = v % 16;
        let c = hex_digit(d);
        proof {
            lemma_hex_digits_len(v as nat, (32 - i) as nat);
            lemma_hex_digits_len((v / 16) as nat, (31 - i) as nat);
            let hv = hex_digits(v as nat, (32 - i) as nat);
            assert(hv == hex_digits((v / 16) as nat, (31 - i) as nat).push(c));
            assert(rev@.push(c).reverse() =~= seq![c] + rev@.reverse());
            assert(hex_digits((v / 16) as nat, (31 - i) as nat) + rev@.push(c).reverse() =~= hv + rev@.reverse());
            lemma_hex_digits_len(u as nat, 32);
            let hu = hex_digits(u as nat, 32);
            assert(hu[31 - i as int] == (hv + rev@.reverse())[31 - i as int]);
            assert((hv + rev@.reverse())[31 - i as int] == hv[31 - i as int]);
        }
        rev.push(c);
        v = v / 16;
        i = i + 1;
    }
    proof {
        lemma_hex_digits_len(u as nat, 32);
    }
    let ghost h = hex_digits(u as nat, 32);
    let mut s = String::new();
    let mut k: usize = 0;
    let ghost want = uuid_text(u);
    while k < 32
        invariant
            k <= 32,
            rev@.len() == 32,
            h.len() == 32,
            h == hex_digits(u as nat, 32),
            want == uuid_text(u),
            forall|j: int| 0 <= j < 32 ==> rev@[j] == h[31 - j],
            s@ == (if k <= 8 {
                h.subrange(0, k as int)
            } else if k <= 12 {
                h.subrange(0, 8) + seq!['-'] + h.subrange(8, k as int)
            } else if k <= 16 {
                h.subrange(0, 8) + seq!['-'] + h.subrange(8, 12) + seq!['-'] + h.subrange(12, k as int)
            } else if k <= 20 {
                h.subrange(0, 8) + seq!['-'] + h.subrange(8, 12) + seq!['-'] + h.subrange(12, 16) + seq!['-']
                    + h.subrange(16, k as int)
            } else {
                h.subrange(0, 8) + seq!['-'] + h.subrange(8, 12) + seq!['-'] + h.subrange(12, 16) + seq!['-']
                    + h.subrange(16, 20) + seq!['-'] + h.subrange(20, k as int)
            }),
        decreases 32 - k,
    {
        if k == 8 || k == 12 || k == 16 || k == 20 {
            push_char(&mut s, '-');
        }
        push_char(&mut s, rev[31 - k]);
        k = k + 1;
        proof {
            if k <= 8 {
                assert(s@ =~= h.subrange(0, k as int));
            } else if k <= 12 {
                assert(s@ =~= h.subrange(0, 8) + seq!['-'] + h.subrange(8, k as int));
            } else if k <= 16 {
                assert(s@ =~= h.subrange(0, 8) + seq!['-'] + h.subrange(8, 12) + seq!['-'] + h.subrange(12, k as int));
            } else if k <= 20 {
                assert(s@ =~= h.subrange(0, 8) + seq!['-'] + h.subrange(8, 12) + seq!['-'] + h.subrange(12, 16) + seq!['-']
                    + h.subrange(16, k as int));
            } else {
                assert(s@ =~= h.subrange(0, 8) + seq!['-'] + h.subrange(8, 12) + seq!['-'] + h.subrange(12, 16) + seq!['-']
                    + h.subrange(16, 20) + seq!['-'] + h.subrange(20, k as int));
            }
        }
    }
    s
}

/// The id of a manga tracked on AniList: its AniList id in decimal, in the
/// manga namespace. The same on every install.
pub fn manga_uuid(anilist_id: u32) -> (r: u128)
    ensures
        r == uuid_v5(MANGA_NAMESPACE, nat_digits(anilist_id as nat)),
{
    let mut key = String::new();
    write_u64(&mut key, anilist_id as u64);
    new_v5(MANGA_NAMESPACE, key.as_str())
}

/// The id of a manga added by hand: its relative path, in the manga
/// namespace, whatever library holds it.
pub fn manual_manga_uuid(relative_path: &str) -> (r: u128)
    ensures
        r == uuid_v5(MANGA_NAMESPACE, relative_path@),
{
    new_v5(MANGA_NAMESPACE, relative_path)
}

/// The key of a library: `"{library_type}:{root_path}"`.
pub open spec fn library_key(library_type: Seq<char>, root_path: Seq<char>) -> Seq<char> {
    library_type + seq![':'] + root_path
}

/// The id of a library: its type and root path, in the library namespace.
pub fn library_uuid(library_type: &str, root_path: &str) -> (r: u128)
    ensures
        r == uuid_v5(LIBRARY_NAMESPACE, library_key(library_type@, root_path@)),
{
    let mut key = String::new();
    push_str(&mut key, library_type);
    push_char(&mut key, ':');
    push_str(&mut key, root_path);
    proof {
        assert(key@ =~= library_key(library_type@, root_path@));
    }
    new_v5(LIBRARY_NAMESPACE, key.as_str())
}

pub open spec fn or_empty(s: Option<&str>) -> Seq<char> {
    match s {
        Some(t) => t@,
        None => Seq::empty(),
    }
}

/// The key of a chapter, the fields of its uniqueness constraint:
/// `manga_id:chapter_base:chapter_variant:LANGUAGE:scanlator_group:provider_name`.
pub open spec fn chapter_key_text(
    manga_id: u128,
    chapter_base: i32,
    chapter_variant: i32,
    language: Seq<char>,
    scanlator_group: Seq<char>,
    provider_name: Seq<char>,
) -> Seq<char> {
    uuid_text(manga_id) + seq![':'] + int_digits(chapter_base as int) + seq![':'] + int_digits(chapter_variant as int)
        + seq![':'] + unicode_uppercase(language) + seq![':'] + scanlator_group + seq![':'] + provider_name
}

/// The key of a chapter, an absent group or provider written as nothing.
pub open spec fn chapter_key(
    manga_id: u128,
    chapter_base: i32,
    chapter_variant: i32,
    language: Seq<char>,
    scanlator_group: Option<&str>,
    provider_name: Option<&str>,
) -> Seq<char> {
    chapter_key_text(manga_id, chapter_base, chapter_variant, language, or_empty(scanlator_group), or_empty(provider_name))
}

/// The id of a chapter: its key in the chapter namespace.
pub fn chapter_uuid(
    manga_id: u128,
    chapter_base: i32,
    chapter_variant: i32,
    language: &str,
    scanlator_group: Option<&str>,
    provider_name: Option<&str>,
) -> (r: u128)
    ensures
        r == uuid_v5(
            CHAPTER_NAMESPACE,
            chapter_key(manga_id, chapter_base, chapter_variant, language@, scanlator_group, provider_name),
        ),
{
    let mut key = uuid_string(manga_id);
    push_char(&mut key, ':');
    write_i64(&mut key, chapter_base as i64);
    push_char(&mut key, ':');
    write_i64(&mut key, chapter_variant as i64);
    push_char(&mut key, ':');
    let lang = to_uppercase(language);
    push_str(&mut key, lang.as_str());
    push_char(&mut key, ':');
    if let Some(g) = scanlator_group {
        push_str(&mut key, g);
    }
    push_char(&mut key, ':');
    if let Some(p) = provider_name {
        push_str(&mut key, p);
    }
    proof {
        assert(key@ =~= chapter_key(manga_id, chapter_base, chapter_variant, language@, scanlator_group, provider_name));
    }
    new_v5(CHAPTER_NAMESPACE, key.as_str())
}

/// Whether the id is among the ids.
pub fn contains_id(v: &Vec<u128>, x: u128) -> (r: bool)
    ensures
        r == v@.contains(x),
{
    let mut i: usize = 0;
    while i < v.len()
        invariant
            i <= v@.len(),
            forall|j: int| 0 <= j < i ==> v@[j] != x,
        decreases v.len() - i,
    {
        if v[i] == x {
            assert(v@[i as int] == x);
            return true;
        }
        i = i + 1;
    }
    false
}

} // verus!
