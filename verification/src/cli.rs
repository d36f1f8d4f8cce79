//! Decisions of the command-line tool's interactive commands: which mode a
//! test runs in, which providers a command uses, and how chapters, pages and
//! scan results are named and summed up.

use vstd::prelude::*;
use crate::text::{
    eq_ignore_ascii_case, eq_ignore_ascii_case_spec, int_digits, nat_digits, push_char, push_str,
    u64_to_string, write_i64,
};

verus! {

/// How `test` runs.
#[derive(Debug, Clone, Copy, PartialEq, Eq, Structural)]
pub enum TestMode {
    /// Rewrite the fixtures from live scrapes.
    FixtureUpdate,
    /// Check the live providers against the fixtures.
    FixtureRun,
    /// Search, list and fetch one query interactively.
    Interactive,
}

/// Without a query, or when asked to update, `test` works on fixtures.
pub fn test_mode(has_query: bool, update: bool) -> (r: TestMode)
    ensures
        update ==> r == TestMode::FixtureUpdate,
        !update && !has_query ==> r == TestMode::FixtureRun,
        !update && has_query ==> r == TestMode::Interactive,
{
    if !has_query || update {
        if update {
            TestMode::FixtureUpdate
        } else {
            TestMode::FixtureRun
        }
    } else {
        TestMode::Interactive
    }
}

/// The provider a command uses: the first whose name matches `wanted`
/// (ASCII case aside), or the first provider when none is asked for.
pub fn select_provider(names: &Vec<String>, wanted: Option<&str>) -> (r: Option<usize>)
    ensures
        match wanted {
            None => if names.len() > 0 { r == Some(0usize) } else { r is None },
            Some(w) => match r {
                Some(i) => i < names.len() && eq_ignore_ascii_case_spec(names[i as int]@, w@)
                    && forall|j: int| 0 <= j < i ==> !eq_ignore_ascii_case_spec(#[trigger] names[j]@, w@),
                None => forall|j: int| 0 <= j < names.len() ==> !eq_ignore_ascii_case_spec(#[trigger] names[j]@, w@),
            },
        },
{
    match wanted {
        None => if names.len() > 0 {
            Some(0)
        } else {
            None
        },
        Some(w) => {
            let mut i: usize = 0;
            while i < names.len()
                invariant
                    wanted == Some(w),
                    i <= names.len(),
                    forall|j: int| 0 <= j < i ==> !eq_ignore_ascii_case_spec(#[trigger] names[j]@, w@),
                decreases names.len() - i,
            {
                if eq_ignore_ascii_case(names[i].as_str(), w) {
                    return Some(i);
                }
                i += 1;
            }
            None
        },
    }
}

/// The positions `0..n`.
pub open spec fn positions(n: nat) -> Seq<usize> {
    Seq::new(n, |i: int| i as usize)
}

/// `r` holds, in increasing order, exactly the positions below `n` whose
/// name matches `f` (ASCII case aside).
pub open spec fn matching_positions(names: Seq<String>, f: Seq<char>, r: Seq<usize>, n: int) -> bool {
    &&& forall|k: int| #![trigger r[k]] 0 <= k < r.len() ==> r[k] < n && eq_ignore_ascii_case_spec(names[r[k] as int]@, f)
    &&& forall|k: int, l: int| 0 <= k < l < r.len() ==> r[k] < r[l]
    &&& forall|j: int| 0 <= j < n && eq_ignore_ascii_case_spec(#[trigger] names[j]@, f) ==> r.contains(j as usize)
}

/// The providers `scan` covers: those whose name matches the filter (ASCII
/// case aside), every provider without one; by position, in order.
pub fn scan_providers(names: &Vec<String>, filter: Option<&str>) -> (r: Vec<usize>)
    ensures
        filter is None ==> r@ == positions(names.len() as nat),
        filter matches Some(f) ==> matching_positions(names@, f@, r@, names.len() as int),
{
    let mut r: Vec<usize> = Vec::new();
    let mut i: usize = 0;
    match filter {
        None => {
            while i < names.len()
                invariant
                    i <= names.len(),
                    r@ == positions(i as nat),
                decreases names.len() - i,
            {
                r.push(i);
                proof {
                    assert(r@ =~= positions((i + 1) as nat));
                }
                i += 1;
            }
            proof {
                assert(r@ == positions(names.len() as nat));
            }
        },
        Some(f) => {
            while i < names.len()
                invariant
                    i <= names.len(),
                    filter == Some(f),
                    matching_positions(names@, f@, r@, i as int),
                decreases names.len() - i,
            {
                if eq_ignore_ascii_case(names[i].as_str(), f) {
                    let ghost before = r@;
                    r.push(i);
                    proof {
                        assert(r@[r.len() - 1] == i);
                        assert(matching_positions(names@, f@, before, i as int));
                        assert forall|k: int| #![trigger r@[k]] 0 <= k < r.len() implies r@[k] < i + 1 && eq_ignore_ascii_case_spec(names@[r@[k] as int]@, f@) by {
                            if k < before.len() {
                                assert(r@[k] == before[k]);
                                assert(before[k] < i);
                            }
                        }
                        assert forall|k: int, l: int| 0 <= k < l < r.len() implies r@[k] < r@[l] by {
                            if l < before.len() {
                                assert(r@[k] == before[k] && r@[l] == before[l]);
                            } else {
                                assert(r@[k] == before[k]);
                                assert(before[k] < i);
                            }
                        }
                        assert forall|j: int| 0 <= j < i + 1 && eq_ignore_ascii_case_spec(#[trigger] names@[j]@, f@) implies r@.contains(
                            j as usize,
                        ) by {
                            if j < i {
                                let k = choose|k: int| 0 <= k < before.len() && before[k] == j as usize;
                                assert(r@[k] == j as usize);
                            }
                        }
                    }
                }
                i += 1;
            }
        },
    }
    r
}

/// The label of a chapter in a scan summary: "Ch." and its number, or a dash.
pub fn chapter_label(chapter_base: Option<i32>) -> (r: String)
    ensures
        match chapter_base {
            Some(b) => r@ == "Ch."@ + int_digits(b as int),
            None => r@ == "\u{2014}"@,
        },
{
    let mut s = String::new();
    match chapter_base {
        Some(b) => {
            push_str(&mut s, "Ch.");
            write_i64(&mut s, b as i64);
        },
        None => push_str(&mut s, "\u{2014}"),
    }
    s
}

/// At least three characters, zero-padded.
pub open spec fn pad3(s: Seq<char>) -> Seq<char> {
    if s.len() >= 3 {
        s
    } else {
        Seq::new((3 - s.len()) as nat, |i: int| '0') + s
    }
}

/// The file a downloaded page is written to: its index zero-padded to three
/// digits, a dot and the extension.
pub fn local_page_name(index: u32, ext: &str) -> (r: String)
    ensures
        r@ == pad3(nat_digits(index as nat)) + "."@ + ext@,
{
    let digits = u64_to_string(index as u64);
    let n = digits.as_str().unicode_len();
    let mut s = String::new();
    let mut k: usize = n;
    while k < 3
        invariant
            n <= k <= 3 || (n > 3 && k == n),
            n == nat_digits(index as nat).len(),
            s@ == Seq::new((k - n) as nat, |i: int| '0'),
        decreases 3 - k,
    {
        push_char(&mut s, '0');
        proof {
            assert(s@ =~= Seq::new((k + 1 - n) as nat, |i: int| '0'));
        }
        k += 1;
    }
    push_str(&mut s, digits.as_str());
    push_char(&mut s, '.');
    push_str(&mut s, ext);
    proof {
        reveal_strlit(".");
        if n >= 3 {
            assert(s@ =~= nat_digits(index as nat) + "."@ + ext@);
        } else {
            assert(s@ =~= pad3(nat_digits(index as nat)) + "."@ + ext@);
        }
    }
    s
}

/// Name for what `char::is_alphanumeric` says of a character (Unicode
/// alphabetic or numeric).
pub uninterp spec fn unicode_alphanumeric(c: char) -> bool;

/// `char::is_alphanumeric`. The contract names the result and states the
/// ASCII cases that std documents: ASCII letters and digits are
/// alphanumeric, other ASCII characters are not.
#[verifier::external_body]
fn is_alphanumeric(c: char) -> (r: bool)
    ensures
        r == unicode_alphanumeric(c),
        (c as u32) < 128 ==> (r <==> (('a' <= c && c <= 'z') || ('A' <= c && c <= 'Z') || ('0' <= c && c <= '9'))),
{
    c.is_alphanumeric()
}

/// How a series title is written as a folder name: letters, digits, spaces
/// and dashes stay, anything else becomes an underscore.
pub open spec fn safe_char(c: char) -> char {
    if unicode_alphanumeric(c) || c == ' ' || c == '-' {
        c
    } else {
        '_'
    }
}

/// A series title as a folder name.
pub fn safe_title(title: &str) -> (r: String)
    ensures
        r@ == title@.map_values(|c: char| safe_char(c)),
{
    let n = title.unicode_len();
    let mut s = String::new();
    let mut i: usize = 0;
    while i < n
        invariant
            n == title@.len(),
            i <= n,
            s@ == title@.take(i as int).map_values(|c: char| safe_char(c)),
        decreases n - i,
    {
        let c = title.get_char(i);
        let d = if is_alphanumeric(c) || c == ' ' || c == '-' {
            c
        } else {
            '_'
        };
        push_char(&mut s, d);
        proof {
            assert(title@.take(i + 1) =~= title@.take(i as int).push(c));
            assert(s@ =~= title@.take(i + 1).map_values(|c: char| safe_char(c)));
        }
        i += 1;
    }
    proof {
        assert(title@.take(n as int) =~= title@);
    }
    s
}

/// How many scanned providers succeeded: those without an error.
pub fn succeeded_count(errors: &Vec<Option<String>>) -> (r: usize)
    ensures
        r == errors@.filter(|e: Option<String>| e is None).len(),
        r <= errors.len(),
{
    let ghost pred = |e: Option<String>| e is None;
    let mut r: usize = 0;
    let mut i: usize = 0;
    while i < errors.len()
        invariant
            i <= errors.len(),
            pred == (|e: Option<String>| e is None),
            r == errors@.take(i as int).filter(pred).len(),
            r <= i,
        decreases errors.len() - i,
    {
        proof {
            assert(errors@.take(i + 1) =~= errors@.take(i as int).push(errors@[i as int]));
            errors@.take(i as int).lemma_filter_push(errors@[i as int], pred);
        }
        if errors[i].is_none() {
            r += 1;
        }
        i += 1;
    }
    proof {
        assert(errors@.take(errors.len() as int) =~= errors@);
    }
    r
}

} // verus!
