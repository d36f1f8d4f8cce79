//! Chapter upgrades: slots where the canonical release now scores strictly
//! better than a release that is already downloaded.

use vstd::prelude::*;

verus! {

/// What the upgrade search reads of a chapter row.
#[derive(Debug, Clone, Copy)]
pub struct UpgradeInput {
    pub id: u128,
    pub chapter_base: i32,
    pub chapter_variant: i32,
    /// Whether the row's file is downloaded.
    pub downloaded: bool,
    /// Quality score of the row after metadata rules were applied.
    pub score: i32,
}

/// A slot whose downloaded release should give way to the canonical one.
#[derive(Debug, Clone, Copy, PartialEq, Eq)]
pub struct UpgradeCandidate {
    pub chapter_base: i32,
    pub chapter_variant: i32,
    /// The canonical release, which scores higher.
    pub new_canonical_id: u128,
    /// The downloaded release, which scores lower.
    pub old_downloaded_id: u128,
}

/// Whether a row belongs to slot `(b, v)`.
pub open spec fn in_slot(e: UpgradeInput, b: i32, v: i32) -> bool {
    e.chapter_base == b && e.chapter_variant == v
}

/// Row `i` is the first canonical row of slot `(b, v)`.
pub open spec fn first_canonical(s: Seq<UpgradeInput>, ids: Seq<u128>, b: i32, v: i32, i: int) -> bool {
    &&& 0 <= i < s.len()
    &&& in_slot(s[i], b, v) && ids.contains(s[i].id)
    &&& forall|j: int| 0 <= j < i ==> !(in_slot(#[trigger] s[j], b, v) && ids.contains(s[j].id))
}

/// Row `j` is downloaded, in the slot of canonical row `i`, not row `i`'s
/// release, and scores strictly lower.
pub open spec fn beaten(s: Seq<UpgradeInput>, i: int, j: int) -> bool {
    &&& 0 <= j < s.len()
    &&& in_slot(s[j], s[i].chapter_base, s[i].chapter_variant)
    &&& s[j].id != s[i].id
    &&& s[j].downloaded
    &&& s[i].score > s[j].score
}

/// Row `j` is the first row that canonical row `i` beats.
pub open spec fn first_beaten(s: Seq<UpgradeInput>, i: int, j: int) -> bool {
    &&& beaten(s, i, j)
    &&& forall|k: int| 0 <= k < j ==> !beaten(s, i, k)
}

/// `c` is the upgrade of its slot: its first canonical row and the first
/// downloaded row that scores lower.
pub open spec fn is_upgrade(s: Seq<UpgradeInput>, ids: Seq<u128>, c: UpgradeCandidate) -> bool {
    exists|i: int, j: int|
        first_canonical(s, ids, c.chapter_base, c.chapter_variant, i) && first_beaten(s, i, j) && c.new_canonical_id == s[i].id
            && c.old_downloaded_id == s[j].id
}

/// Slot `(b, v)` has a canonical row that beats a downloaded one.
pub open spec fn slot_upgradable(s: Seq<UpgradeInput>, ids: Seq<u128>, b: i32, v: i32) -> bool {
    exists|i: int, j: int| first_canonical(s, ids, b, v, i) && beaten(s, i, j)
}

fn id_listed(ids: &Vec<u128>, id: u128) -> (r: bool)
    ensures
        r == ids@.contains(id),
{
    let mut k: usize = 0;
    while k < ids.len()
        invariant
            k <= ids.len(),
            forall|m: int| 0 <= m < k ==> ids@[m] != id,
        decreases ids.len() - k,
    {
        if ids[k] == id {
            return true;
        }
        k += 1;
    }
    false
}

/// The first canonical row of slot `(b, v)`.
fn find_canonical(s: &Vec<UpgradeInput>, ids: &Vec<u128>, b: i32, v: i32) -> (r: Option<usize>)
    ensures
        match r {
            Some(i) => first_canonical(s@, ids@, b, v, i as int),
            None => forall|i: int| 0 <= i < s.len() ==> !(in_slot(#[trigger] s@[i], b, v) && ids@.contains(s@[i].id)),
        },
{
    let mut i: usize = 0;
    while i < s.len()
        invariant
            i <= s.len(),
            forall|j: int| 0 <= j < i ==> !(in_slot(#[trigger] s@[j], b, v) && ids@.contains(s@[j].id)),
        decreases s.len() - i,
    {
        if s[i].chapter_base == b && s[i].chapter_variant == v && id_listed(ids, s[i].id) {
            return Some(i);
        }
        i += 1;
    }
    None
}

/// The first row that canonical row `c` beats.
fn find_beaten(s: &Vec<UpgradeInput>, c: usize) -> (r: Option<usize>)
    requires
        c < s.len(),
    ensures
        match r {
            Some(j) => first_beaten(s@, c as int, j as int),
            None => forall|j: int| 0 <= j < s.len() ==> !beaten(s@, c as int, j),
        },
{
    let mut j: usize = 0;
    while j < s.len()
        invariant
            c < s.len(),
            j <= s.len(),
            forall|k: int| 0 <= k < j ==> !beaten(s@, c as int, k),
        decreases s.len() - j,
    {
        let e = s[j];
        let canon = s[c];
        if e.chapter_base == canon.chapter_base && e.chapter_variant == canon.chapter_variant && e.id != canon.id && e.downloaded
            && canon.score > e.score {
            return Some(j);
        }
        j += 1;
    }
    None
}

/// The slots whose downloaded release scores strictly lower than their
/// canonical one, each once: for each, its first canonical row and the
/// first downloaded row that scores lower.
pub fn find_upgrade_candidates(chapters: &Vec<UpgradeInput>, canonical_ids: &Vec<u128>) -> (r: Vec<UpgradeCandidate>)
    ensures
        forall|k: int| 0 <= k < r.len() ==> is_upgrade(chapters@, canonical_ids@, #[trigger] r[k]),
        forall|k: int, l: int| 0 <= k < l < r.len() ==> (r[k].chapter_base, r[k].chapter_variant) != (
            r[l].chapter_base,
            r[l].chapter_variant,
        ),
        forall|b: i32, v: i32| #[trigger] slot_upgradable(chapters@, canonical_ids@, b, v) ==> exists|k: int|
            0 <= k < r.len() && r[k].chapter_base == b && r[k].chapter_variant == v,
{
    let ghost s = chapters@;
    let ghost ids = canonical_ids@;
    let mut r: Vec<UpgradeCandidate> = Vec::new();
    let mut i: usize = 0;
    while i < chapters.len()
        invariant
            s == chapters@,
            ids == canonical_ids@,
            i <= s.len(),
            forall|k: int| 0 <= k < r.len() ==> is_upgrade(s, ids, #[trigger] r[k]),
            forall|k: int| #![trigger r[k]] 0 <= k < r.len() ==> exists|m: int| 0 <= m < i && in_slot(#[trigger] s[m], r[k].chapter_base, r[k].chapter_variant),
            forall|k: int, l: int| 0 <= k < l < r.len() ==> (r[k].chapter_base, r[k].chapter_variant) != (
                r[l].chapter_base,
                r[l].chapter_variant,
            ),
            forall|m: int| 0 <= m < i && #[trigger] slot_upgradable(s, ids, s[m].chapter_base, s[m].chapter_variant) ==> exists|k: int|
                0 <= k < r.len() && r[k].chapter_base == s[m].chapter_base && r[k].chapter_variant == s[m].chapter_variant,
        decreases s.len() - i,
    {
        let b = chapters[i].chapter_base;
        let v = chapters[i].chapter_variant;
        let mut seen = false;
        let mut m: usize = 0;
        while m < i
            invariant
                i < chapters.len(),
                m <= i,
                seen <==> exists|x: int| 0 <= x < m && in_slot(#[trigger] chapters@[x], b, v),
            decreases i - m,
        {
            if chapters[m].chapter_base == b && chapters[m].chapter_variant == v {
                seen = true;
            }
            m += 1;
        }
        if !seen {
            let ghost before = r@;
            match find_canonical(chapters, canonical_ids, b, v) {
                Some(c) => match find_beaten(chapters, c) {
                    Some(j) => {
                        let cand = UpgradeCandidate {
                            chapter_base: b,
                            chapter_variant: v,
                            new_canonical_id: chapters[c].id,
                            old_downloaded_id: chapters[j].id,
                        };
                        proof {
                            assert(first_canonical(s, ids, b, v, c as int) && first_beaten(s, c as int, j as int));
                        }
                        r.push(cand);
                        proof {
                            assert forall|k: int| 0 <= k < r.len() implies is_upgrade(s, ids, #[trigger] r[k]) by {
                                if k < before.len() {
                                    assert(r[k] == before[k]);
                                }
                            }
                            assert forall|k: int| #![trigger r[k]] 0 <= k < r.len() implies exists|x: int|
                                0 <= x < i + 1 && in_slot(#[trigger] s[x], r[k].chapter_base, r[k].chapter_variant) by {
                                if k < before.len() {
                                    assert(r[k] == before[k]);
                                } else {
                                    assert(in_slot(s[i as int], b, v));
                                }
                            }
                            assert forall|k: int, l: int| 0 <= k < l < r.len() implies (r[k].chapter_base, r[k].chapter_variant) != (
                                r[l].chapter_base,
                                r[l].chapter_variant,
                            ) by {
                                if l == r.len() - 1 {
                                    assert(r[k] == before[k]);
                                    if r[k].chapter_base == b && r[k].chapter_variant == v {
                                        let x = choose|x: int| 0 <= x < i && in_slot(#[trigger] s[x], r[k].chapter_base, r[k].chapter_variant);
                                        assert(in_slot(chapters@[x], b, v));
                                    }
                                } else {
                                    assert(r[k] == before[k] && r[l] == before[l]);
                                }
                            }
                            assert forall|x: int| 0 <= x < i + 1 && #[trigger] slot_upgradable(s, ids, s[x].chapter_base, s[x].chapter_variant)
                                implies exists|k: int| 0 <= k < r.len() && r[k].chapter_base == s[x].chapter_base && r[k].chapter_variant
                                == s[x].chapter_variant by {
                                if x < i {
                                    let k = choose|k: int| 0 <= k < before.len() && before[k].chapter_base == s[x].chapter_base
                                        && before[k].chapter_variant == s[x].chapter_variant;
                                    assert(r[k] == before[k]);
                                } else {
                                    assert(r[r.len() - 1] == cand);
                                }
                            }
                        }
                    },
                    None => {
                        proof {
                            assert forall|x: int| 0 <= x < i + 1 && #[trigger] slot_upgradable(s, ids, s[x].chapter_base, s[x].chapter_variant)
                                implies exists|k: int| 0 <= k < r.len() && r[k].chapter_base == s[x].chapter_base && r[k].chapter_variant
                                == s[x].chapter_variant by {
                                if x == i {
                                    let (ci, cj) = choose|ci: int, cj: int| first_canonical(s, ids, b, v, ci) && beaten(s, ci, cj);
                                    assert(ci == c) by {
                                        if ci < c {
                                            assert(!(in_slot(s[ci], b, v) && ids.contains(s[ci].id)));
                                        } else if ci > c {
                                            assert(!(in_slot(s[c as int], b, v) && ids.contains(s[c as int].id)));
                                        }
                                    }
                                    assert(!beaten(s, c as int, cj));
                                }
                            }
                            assert forall|k: int| #![trigger r[k]] 0 <= k < r.len() implies exists|x: int|
                                0 <= x < i + 1 && in_slot(#[trigger] s[x], r[k].chapter_base, r[k].chapter_variant) by {
                                let x = choose|x: int| 0 <= x < i && in_slot(#[trigger] s[x], r[k].chapter_base, r[k].chapter_variant);
                            }
                        }
                    },
                },
                None => {
                    proof {
                        assert forall|x: int| 0 <= x < i + 1 && #[trigger] slot_upgradable(s, ids, s[x].chapter_base, s[x].chapter_variant)
                            implies exists|k: int| 0 <= k < r.len() && r[k].chapter_base == s[x].chapter_base && r[k].chapter_variant
                            == s[x].chapter_variant by {
                            if x == i {
                                let (ci, cj) = choose|ci: int, cj: int| first_canonical(s, ids, b, v, ci) && beaten(s, ci, cj);
                                assert(!(in_slot(s[ci], b, v) && ids.contains(s[ci].id)));
                            }
                        }
                        assert forall|k: int| #![trigger r[k]] 0 <= k < r.len() implies exists|x: int|
                            0 <= x < i + 1 && in_slot(#[trigger] s[x], r[k].chapter_base, r[k].chapter_variant) by {
                            let x = choose|x: int| 0 <= x < i && in_slot(#[trigger] s[x], r[k].chapter_base, r[k].chapter_variant);
                        }
                    }
                },
            }
        } else {
            proof {
                let y = choose|y: int| 0 <= y < i && in_slot(#[trigger] chapters@[y], b, v);
                assert forall|x: int| 0 <= x < i + 1 && #[trigger] slot_upgradable(s, ids, s[x].chapter_base, s[x].chapter_variant)
                    implies exists|k: int| 0 <= k < r.len() && r[k].chapter_base == s[x].chapter_base && r[k].chapter_variant
                    == s[x].chapter_variant by {
                    if x == i {
                        assert(s[y].chapter_base == s[x].chapter_base && s[y].chapter_variant == s[x].chapter_variant);
                        assert(slot_upgradable(s, ids, s[y].chapter_base, s[y].chapter_variant));
                    }
                }
                assert forall|k: int| #![trigger r[k]] 0 <= k < r.len() implies exists|x: int|
                    0 <= x < i + 1 && in_slot(#[trigger] s[x], r[k].chapter_base, r[k].chapter_variant) by {
                    let x = choose|x: int| 0 <= x < i && in_slot(#[trigger] s[x], r[k].chapter_base, r[k].chapter_variant);
                }
            }
        }
        i += 1;
    }
    proof {
        assert forall|bb: i32, vv: i32| #[trigger] slot_upgradable(s, ids, bb, vv) implies exists|k: int|
            0 <= k < r.len() && r[k].chapter_base == bb && r[k].chapter_variant == vv by {
            let (ci, cj) = choose|ci: int, cj: int| first_canonical(s, ids, bb, vv, ci) && beaten(s, ci, cj);
            assert(slot_upgradable(s, ids, s[ci].chapter_base, s[ci].chapter_variant));
        }
    }
    r
}

} // verus!
