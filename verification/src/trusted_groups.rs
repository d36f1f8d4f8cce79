//! Trusted scanlation groups: the names the user trusts, kept once each and
//! listed in case-insensitive order, and the requests that change them.

use vstd::prelude::*;
use crate::errors::{bad_request, is_failure, ApiFailure, ApiStatus};
use crate::text::{
    ascii_lower, chars_of, lemma_seq_lt_transitive, lemma_seq_lt_trichotomy, seq_lt, str_eq, str_lt,
    string_of, to_ascii_lower, trim, trim_seq, views_of,
};
use crate::webhook::clone_strings;

verus! {

/// The body of a request to trust a group.
#[derive(Debug)]
pub struct AddTrustedGroupRequest {
    pub name: String,
}

/// A name with its ASCII letters lowercased: names are listed in the order of
/// this key, as a case-insensitive (ASCII) collation orders them.
pub open spec fn fold_case(s: Seq<char>) -> Seq<char> {
    s.map_values(|c: char| ascii_lower(c))
}

/// Each name sorts no later than the ones after it.
pub open spec fn sorted_nocase(s: Seq<Seq<char>>) -> bool {
    forall|i: int, j: int| 0 <= i < j < s.len() ==> !seq_lt(fold_case(s[j]), fold_case(s[i]))
}

/// `after` is `before` with `name` trusted: unchanged if it was there, else
/// with `name` inserted at one position.
pub open spec fn added(before: Seq<Seq<char>>, after: Seq<Seq<char>>, name: Seq<char>) -> bool {
    &&& before.contains(name) ==> after == before
    &&& !before.contains(name) ==> exists|p: int| 0 <= p <= before.len() && after == before.insert(p, name)
}

/// `after` is `before` without `name`: unchanged if it was not there, else
/// with the entry holding it taken out.
pub open spec fn removed(before: Seq<Seq<char>>, after: Seq<Seq<char>>, name: Seq<char>) -> bool {
    &&& !before.contains(name) ==> after == before
    &&& before.contains(name) ==> exists|i: int| 0 <= i < before.len() && before[i] == name && after == before.remove(i)
}

/// The trusted group names.
pub struct TrustedGroups {
    names: Vec<String>,
}

fn fold_chars(s: &str) -> (r: Vec<char>)
    ensures
        r@ == fold_case(s@),
{
    let cs = chars_of(s);
    let mut r: Vec<char> = Vec::new();
    let mut i: usize = 0;
    while i < cs.len()
        invariant
            i <= cs@.len(),
            cs@ == s@,
            r@ == fold_case(s@.take(i as int)),
        decreases cs.len() - i,
    {
        r.push(to_ascii_lower(cs[i]));
        i = i + 1;
        assert(r@ =~= fold_case(s@.take(i as int)));
    }
    assert(s@.take(s@.len() as int) =~= s@);
    r
}

proof fn lemma_insert_sorted(s: Seq<Seq<char>>, p: int, a: Seq<char>)
    requires
        sorted_nocase(s),
        0 <= p <= s.len(),
        forall|i: int| 0 <= i < p ==> !seq_lt(fold_case(a), fold_case(#[trigger] s[i])),
        forall|i: int| p <= i < s.len() ==> seq_lt(fold_case(a), fold_case(#[trigger] s[i])),
    ensures
        sorted_nocase(s.insert(p, a)),
{
    let r = s.insert(p, a);
    assert forall|i: int, j: int| 0 <= i < j < r.len() implies !seq_lt(fold_case(r[j]), fold_case(r[i])) by {
        if i < p && j < p {
            assert(r[i] == s[i] && r[j] == s[j]);
        } else if i < p && j == p {
            assert(r[i] == s[i] && r[j] == a);
        } else if i < p {
            assert(r[i] == s[i] && r[j] == s[j - 1]);
        } else if i == p {
            assert(r[j] == s[j - 1] && r[i] == a);
            lemma_seq_lt_trichotomy(fold_case(a), fold_case(s[j - 1]));
        } else {
            assert(r[i] == s[i - 1] && r[j] == s[j - 1]);
        }
    }
}

proof fn lemma_remove_keeps(s: Seq<Seq<char>>, k: int)
    requires
        sorted_nocase(s),
        s.no_duplicates(),
        0 <= k < s.len(),
    ensures
        sorted_nocase(s.remove(k)),
        s.remove(k).no_duplicates(),
{
    let r = s.remove(k);
    assert forall|i: int, j: int| 0 <= i < j < r.len() implies !seq_lt(fold_case(r[j]), fold_case(r[i])) && r[i] != r[j] by {
        let i2 = if i < k { i } else { i + 1 };
        let j2 = if j < k { j } else { j + 1 };
        assert(r[i] == s[i2] && r[j] == s[j2]);
    }
}

impl TrustedGroups {
    /// The names in the order they are listed.
    pub closed spec fn view(&self) -> Seq<Seq<char>> {
        views_of(self.names@)
    }

    /// Well-formed: every name once, in case-insensitive order.
    pub open spec fn wf(&self) -> bool {
        &&& self.view().no_duplicates()
        &&& sorted_nocase(self.view())
    }

    /// No trusted groups.
    pub fn new() -> (r: Self)
        ensures
            r.wf(),
            r.view() == Seq::<Seq<char>>::empty(),
    {
        let r = TrustedGroups { names: Vec::new() };
        assert(r.view() =~= Seq::<Seq<char>>::empty());
        r
    }

    /// Position of `name`, if it is trusted.
    fn position(&self, name: &str) -> (r: Option<usize>)
        ensures
            match r {
                Some(i) => i < self.view().len() && self.view()[i as int] == name@,
                None => !self.view().contains(name@),
            },
    {
        let mut i: usize = 0;
        while i < self.names.len()
            invariant
                i <= self.names@.len(),
                forall|j: int| 0 <= j < i ==> self.view()[j] != name@,
            decreases self.names.len() - i,
        {
            if str_eq(self.names[i].as_str(), name) {
                return Some(i);
            }
            i = i + 1;
        }
        None
    }

    /// Where a new name goes: after every name that does not sort after it.
    fn insertion_point(&self, name: &str) -> (p: usize)
        requires
            self.wf(),
        ensures
            p <= self.view().len(),
            forall|i: int| 0 <= i < p ==> !seq_lt(fold_case(name@), fold_case(#[trigger] self.view()[i])),
            forall|i: int| p <= i < self.view().len() ==> seq_lt(fold_case(name@), fold_case(#[trigger] self.view()[i])),
    {
        let key = fold_chars(name);
        let mut p: usize = 0;
        while p < self.names.len() && !str_lt(key.as_slice(), fold_chars(self.names[p].as_str()).as_slice())
            invariant
                p <= self.names@.len(),
                key@ == fold_case(name@),
                self.wf(),
                forall|i: int| 0 <= i < p ==> !seq_lt(fold_case(name@), fold_case(#[trigger] self.view()[i])),
            decreases self.names.len() - p,
        {
            p = p + 1;
        }
        proof {
            let s = self.view();
            if p < s.len() {
                assert forall|i: int| p <= i < s.len() implies seq_lt(fold_case(name@), fold_case(#[trigger] s[i])) by {
                    if i > p {
                        lemma_seq_lt_trichotomy(fold_case(s[p as int]), fold_case(s[i]));
                        if fold_case(s[p as int]) != fold_case(s[i]) {
                            lemma_seq_lt_transitive(fold_case(name@), fold_case(s[p as int]), fold_case(s[i]));
                        }
                    }
                }
            }
        }
        p
    }

    /// Trusts `name`; nothing changes if it is trusted already.
    pub fn add_trusted_group(&mut self, name: &str)
        requires
            old(self).wf(),
        ensures
            final(self).wf(),
            added(old(self).view(), final(self).view(), name@),
    {
        if self.position(name).is_some() {
            return;
        }
        let p = self.insertion_point(name);
        let ghost before = self.names@;
        self.names.insert(p, string_of(chars_of(name).as_slice()));
        proof {
            assert(self.view() =~= views_of(before).insert(p as int, name@));
            lemma_insert_sorted(views_of(before), p as int, name@);
            let r = self.view();
            assert forall|i: int, j: int| 0 <= i < j < r.len() implies r[i] != r[j] by {
                let b = views_of(before);
                if i != p && j != p {
                    let i2 = if i < p { i } else { i - 1 };
                    let j2 = if j < p { j } else { j - 1 };
                    assert(r[i] == b[i2] && r[j] == b[j2]);
                } else if i == p {
                    assert(r[j] == b[j - 1]);
                } else {
                    assert(r[i] == b[i]);
                }
            }
        }
    }

    /// Stops trusting `name`; nothing changes if it was not trusted.
    pub fn remove_trusted_group(&mut self, name: &str)
        requires
            old(self).wf(),
        ensures
            final(self).wf(),
            removed(old(self).view(), final(self).view(), name@),
            !final(self).view().contains(name@),
    {
        match self.position(name) {
            None => {},
            Some(i) => {
                let ghost before = self.view();
                let _ = self.names.remove(i);
                proof {
                    assert(self.view() =~= before.remove(i as int));
                    lemma_remove_keeps(before, i as int);
                    if self.view().contains(name@) {
                        let k = choose|k: int| 0 <= k < self.view().len() && self.view()[k] == name@;
                        let k2 = if k < i { k } else { k + 1 };
                        assert(before[k2] == name@ && k2 != i);
                    }
                }
            },
        }
    }

    /// The trusted names, in case-insensitive order.
    pub fn get_trusted_groups(&self) -> (r: Vec<String>)
        ensures
            views_of(r@) == self.view(),
    {
        clone_strings(&self.names)
    }
}

/// Stopping trusting a name that was just trusted gives back the list as it was;
/// trusting a name twice is the same as trusting it once.
pub proof fn law_remove_undoes_add(before: Seq<Seq<char>>, mid: Seq<Seq<char>>, after: Seq<Seq<char>>, name: Seq<char>)
    requires
        before.no_duplicates(),
        !before.contains(name),
        added(before, mid, name),
        mid.no_duplicates(),
        removed(mid, after, name),
    ensures
        after == before,
        added(mid, mid, name),
{
    let p = choose|p: int| 0 <= p <= before.len() && mid == before.insert(p, name);
    assert(mid[p] == name);
    assert(mid.contains(name));
    let i = choose|i: int| 0 <= i < mid.len() && mid[i] == name && after == mid.remove(i);
    assert(i == p);
    assert(after =~= before);
}

/// `GET /api/trusted-groups`: the trusted names, in case-insensitive order.
pub fn list_trusted_groups(groups: &TrustedGroups) -> (r: Vec<String>)
    ensures
        views_of(r@) == groups.view(),
{
    groups.get_trusted_groups()
}

/// `POST /api/trusted-groups`: trusts the name with surrounding whitespace
/// removed and answers 201; a name that is empty once trimmed is refused (400).
pub fn add_trusted_group(groups: &mut TrustedGroups, body: &AddTrustedGroupRequest) -> (r: Result<u16, ApiFailure>)
    requires
        old(groups).wf(),
    ensures
        final(groups).wf(),
        trim_seq(body.name@).len() == 0 ==> (r matches Err(f) && is_failure(f, ApiStatus::BadRequest, "name must not be empty"@))
            && final(groups).view() == old(groups).view(),
        trim_seq(body.name@).len() > 0 ==> (r matches Ok(code) && code == 201)
            && added(old(groups).view(), final(groups).view(), trim_seq(body.name@)),
{
    let name = trim(body.name.as_str());
    if name.unicode_len() == 0 {
        return Err(bad_request("name must not be empty"));
    }
    groups.add_trusted_group(name.as_str());
    Ok(201)
}

/// `DELETE /api/trusted-groups/<name>`: stops trusting the name as given and
/// answers 200, whether or not it was trusted.
pub fn remove_trusted_group(groups: &mut TrustedGroups, name: &str) -> (r: u16)
    requires
        old(groups).wf(),
    ensures
        r == 200,
        final(groups).wf(),
        removed(old(groups).view(), final(groups).view(), name@),
{
    groups.remove_trusted_group(name);
    200
}

} // verus!
