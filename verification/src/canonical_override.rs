//! The user's choice of a chapter for a slot: what becomes canonical and how
//! the stored overrides change.

use vstd::prelude::*;
use crate::canonical::{find_chapter, find_chapter_exec, ids_of, ScoredChapter};
use crate::text::{int_digits, push_char, starts_with, starts_with_spec, str_eq, write_i64};

verus! {

/// The key under which an override for slot `base.variant` is stored.
pub open spec fn override_key(base: i32, variant: i32) -> Seq<char> {
    int_digits(base as int) + seq![':'] + int_digits(variant as int)
}

/// The prefix shared by the override keys of every variant of `base`.
pub open spec fn base_prefix(base: i32) -> Seq<char> {
    int_digits(base as int) + seq![':']
}

/// The key under which an override for slot `base.variant` is stored.
pub fn override_key_text(base: i32, variant: i32) -> (r: String)
    ensures
        r@ == override_key(base, variant),
{
    let mut s = String::new();
    write_i64(&mut s, base as i64);
    push_char(&mut s, ':');
    write_i64(&mut s, variant as i64);
    s
}

fn base_prefix_text(base: i32) -> (r: String)
    ensures
        r@ == base_prefix(base),
{
    let mut s = String::new();
    write_i64(&mut s, base as i64);
    push_char(&mut s, ':');
    s
}

/// Whether a chapter is a part of the split bundle that `sel` belongs to:
/// same base and provider, a part number from 1 to 4, not an extra.
pub open spec fn bundle_part(c: ScoredChapter, base: i32, sel: ScoredChapter) -> bool {
    c.chapter_base == base && c.provider == sel.provider && 1 <= c.chapter_variant <= 4 && !c.is_extra
}

/// The parts of the bundle with part number `v`, in row order.
pub open spec fn parts_numbered(all: Seq<ScoredChapter>, base: i32, sel: ScoredChapter, v: i32) -> Seq<ScoredChapter> {
    all.filter(|c: ScoredChapter| bundle_part(c, base, sel) && c.chapter_variant == v)
}

/// The bundle's parts by part number (1 to 4), rows of equal number in row order.
pub open spec fn bundle_parts(all: Seq<ScoredChapter>, base: i32, sel: ScoredChapter) -> Seq<ScoredChapter> {
    parts_numbered(all, base, sel, 1) + parts_numbered(all, base, sel, 2) + parts_numbered(all, base, sel, 3)
        + parts_numbered(all, base, sel, 4)
}

/// Whether a canonical entry (id, base) is of another base than `base`.
pub open spec fn other_base(base: i32) -> spec_fn((u128, i32)) -> bool {
    |e: (u128, i32)| e.1 != base
}

/// The ids of canonical entries.
pub open spec fn entry_ids(s: Seq<(u128, i32)>) -> Seq<u128> {
    s.map_values(|e: (u128, i32)| e.0)
}

/// Whether a stored override is for another base than `base`.
pub open spec fn outside_base(base: i32) -> spec_fn((Seq<char>, u128)) -> bool {
    |e: (Seq<char>, u128)| !starts_with_spec(e.0, base_prefix(base))
}

/// Whether a stored override has another key than `key`.
pub open spec fn other_key(key: Seq<char>) -> spec_fn((Seq<char>, u128)) -> bool {
    |e: (Seq<char>, u128)| e.0 != key
}

/// The canonical list once the user picks chapter `sel` for slot `base`:
/// every canonical chapter of another base, then the pick. A split part
/// brings every part of its bundle with it when the bundle has more than one.
pub open spec fn overridden_list(current: Seq<(u128, i32)>, all: Seq<ScoredChapter>, base: i32, sel: ScoredChapter) -> Seq<u128> {
    let kept = entry_ids(current.filter(other_base(base)));
    if sel.chapter_variant == 0 {
        kept.push(sel.id)
    } else {
        let parts = bundle_parts(all, base, sel);
        if parts.len() > 1 {
            kept + ids_of(parts)
        } else {
            kept.push(sel.id)
        }
    }
}

/// The stored overrides once the user picks `id` for slot `base.variant`:
/// every override for another base, then the new one.
pub open spec fn overridden_keys(overrides: Seq<(Seq<char>, u128)>, base: i32, variant: i32, id: u128) -> Seq<(Seq<char>, u128)> {
    overrides.filter(outside_base(base)).push((override_key(base, variant), id))
}

/// The views of stored overrides.
pub open spec fn override_views(o: Seq<(String, u128)>) -> Seq<(Seq<char>, u128)> {
    o.map_values(|e: (String, u128)| (e.0@, e.1))
}

/// The chapter that `find_chapter` finds has the id looked for.
proof fn lemma_found_id(s: Seq<ScoredChapter>, id: u128)
    ensures
        find_chapter(s, id) matches Some(k) ==> 0 <= k < s.len() && s[k].id == id,
    decreases s.len(),
{
    if s.len() > 0 {
        lemma_found_id(s.drop_last(), id);
    }
}

/// The ids of the bundle's parts numbered `v`, appended to `out`.
fn push_parts_numbered(out: &mut Vec<u128>, all: &[ScoredChapter], base: i32, sel: &ScoredChapter, v: i32)
    ensures
        final(out)@ == old(out)@ + ids_of(parts_numbered(all@, base, *sel, v)),
{
    let ghost start = out@;
    let ghost pred = |c: ScoredChapter| bundle_part(c, base, *sel) && c.chapter_variant == v;
    let mut i: usize = 0;
    while i < all.len()
        invariant
            i <= all@.len(),
            pred == (|c: ScoredChapter| bundle_part(c, base, *sel) && c.chapter_variant == v),
            out@ == start + ids_of(all@.take(i as int).filter(pred)),
        decreases all.len() - i,
    {
        let c = &all[i];
        proof {
            assert(all@.take(i + 1) =~= all@.take(i as int).push(all@[i as int]));
            all@.take(i as int).lemma_filter_push(all@[i as int], pred);
        }
        let part = c.chapter_base == base && c.provider == sel.provider && 1 <= c.chapter_variant && c.chapter_variant <= 4
            && !c.is_extra && c.chapter_variant == v;
        if part {
            let ghost before = out@;
            out.push(c.id);
            proof {
                let prev = all@.take(i as int).filter(pred);
                assert(ids_of(prev.push(all@[i as int])) =~= ids_of(prev).push(c.id));
                assert(out@ =~= start + ids_of(prev.push(all@[i as int])));
            }
        }
        i += 1;
    }
    proof {
        assert(all@.take(all.len() as int) =~= all@);
        assert(pred =~= (|c: ScoredChapter| bundle_part(c, base, *sel) && c.chapter_variant == v));
    }
}

/// What becomes of the canonical list and the stored overrides when the
/// user picks chapter `new_id` for slot `chapter_base.chapter_variant`.
/// `current` holds the canonical chapters (id and base); `None` when the
/// chapter is not one of `all`.
pub fn set_canonical_override(
    current: &Vec<(u128, i32)>,
    all: &Vec<ScoredChapter>,
    overrides: &Vec<(String, u128)>,
    chapter_base: i32,
    chapter_variant: i32,
    new_id: u128,
) -> (r: Option<(Vec<u128>, Vec<(String, u128)>)>)
    ensures
        match find_chapter(all@, new_id) {
            None => r is None,
            Some(k) => r matches Some((list, keys)) && list@ == overridden_list(current@, all@, chapter_base, all@[k])
                && override_views(keys@) == overridden_keys(override_views(overrides@), chapter_base, chapter_variant, new_id),
        },
{
    let k = match find_chapter_exec(all.as_slice(), new_id) {
        Some(k) => k,
        None => return None,
    };
    let sel = &all[k];
    proof {
        lemma_found_id(all@, new_id);
        assert(sel.id == new_id);
    }
    let ghost kpred = other_base(chapter_base);
    let mut list: Vec<u128> = Vec::new();
    let mut i: usize = 0;
    while i < current.len()
        invariant
            i <= current@.len(),
            kpred == other_base(chapter_base),
            list@ == entry_ids(current@.take(i as int).filter(kpred)),
        decreases current.len() - i,
    {
        proof {
            assert(current@.take(i + 1) =~= current@.take(i as int).push(current@[i as int]));
            current@.take(i as int).lemma_filter_push(current@[i as int], kpred);
        }
        if current[i].1 != chapter_base {
            let ghost prev = current@.take(i as int).filter(kpred);
            list.push(current[i].0);
            proof {
                assert(entry_ids(prev.push(current@[i as int])) =~= entry_ids(prev).push(current@[i as int].0));
            }
        }
        i += 1;
    }
    proof {
        assert(current@.take(current.len() as int) =~= current@);

    }
    let ghost kept = list@;
    if sel.chapter_variant == 0 {
        list.push(new_id);
        proof {
            assert(list@ == kept.push(all@[k as int].id));
        }
    } else {
        let mut parts: Vec<u128> = Vec::new();
        push_parts_numbered(&mut parts, all.as_slice(), chapter_base, sel, 1);
        push_parts_numbered(&mut parts, all.as_slice(), chapter_base, sel, 2);
        push_parts_numbered(&mut parts, all.as_slice(), chapter_base, sel, 3);
        push_parts_numbered(&mut parts, all.as_slice(), chapter_base, sel, 4);
        proof {
            let p1 = parts_numbered(all@, chapter_base, *sel, 1);
            let p2 = parts_numbered(all@, chapter_base, *sel, 2);
            let p3 = parts_numbered(all@, chapter_base, *sel, 3);
            let p4 = parts_numbered(all@, chapter_base, *sel, 4);
            assert(ids_of(p1 + p2 + p3 + p4) =~= ids_of(p1) + ids_of(p2) + ids_of(p3) + ids_of(p4));
            assert(parts@ =~= ids_of(bundle_parts(all@, chapter_base, *sel)));
        }
        if parts.len() > 1 {
            let mut j: usize = 0;
            while j < parts.len()
                invariant
                    j <= parts@.len(),
                    list@ == kept + parts@.take(j as int),
                decreases parts.len() - j,
            {
                list.push(parts[j]);
                j += 1;
                proof {
                    assert(list@ =~= kept + parts@.take(j as int));
                }
            }
            proof {
                assert(parts@.take(parts.len() as int) =~= parts@);
                assert(bundle_parts(all@, chapter_base, all@[k as int]).len() > 1);
            }
        } else {
            list.push(new_id);
            proof {
                assert(bundle_parts(all@, chapter_base, all@[k as int]).len() <= 1);
            }
        }
    }
    let prefix = base_prefix_text(chapter_base);
    let ghost opred = outside_base(chapter_base);
    let ghost ov = override_views(overrides@);
    let mut keys: Vec<(String, u128)> = Vec::new();
    let mut i: usize = 0;
    while i < overrides.len()
        invariant
            i <= overrides@.len(),
            prefix@ == base_prefix(chapter_base),
            ov == override_views(overrides@),
            opred == outside_base(chapter_base),
            override_views(keys@) == ov.take(i as int).filter(opred),
        decreases overrides.len() - i,
    {
        proof {
            assert(ov.take(i + 1) =~= ov.take(i as int).push(ov[i as int]));
            ov.take(i as int).lemma_filter_push(ov[i as int], opred);
            assert(ov[i as int] == (overrides@[i as int].0@, overrides@[i as int].1));
        }
        if !starts_with(overrides[i].0.as_str(), prefix.as_str()) {
            let ghost before = keys@;
            keys.push((overrides[i].0.clone(), overrides[i].1));
            proof {
                assert(override_views(keys@) =~= override_views(before).push(ov[i as int]));
            }
        }
        i += 1;
    }
    proof {
        assert(ov.take(overrides.len() as int) =~= ov);
    }
    proof {
        assert(list@ == overridden_list(current@, all@, chapter_base, all@[k as int]));
    }
    let key = override_key_text(chapter_base, chapter_variant);
    let ghost before = keys@;
    keys.push((key, new_id));
    proof {
        assert(override_views(keys@) =~= override_views(before).push((override_key(chapter_base, chapter_variant), new_id)));
    }
    Some((list, keys))
}

/// The stored overrides once the override of slot `base.variant` is removed.
pub fn remove_canonical_override(overrides: &Vec<(String, u128)>, chapter_base: i32, chapter_variant: i32) -> (r: Vec<(String, u128)>)
    ensures
        override_views(r@) == override_views(overrides@).filter(other_key(override_key(chapter_base, chapter_variant))),
{
    let key = override_key_text(chapter_base, chapter_variant);
    let ghost pred = other_key(override_key(chapter_base, chapter_variant));
    let ghost ov = override_views(overrides@);
    let mut r: Vec<(String, u128)> = Vec::new();
    let mut i: usize = 0;
    while i < overrides.len()
        invariant
            i <= overrides@.len(),
            key@ == override_key(chapter_base, chapter_variant),
            ov == override_views(overrides@),
            pred == other_key(override_key(chapter_base, chapter_variant)),
            override_views(r@) == ov.take(i as int).filter(pred),
        decreases overrides.len() - i,
    {
        proof {
            assert(ov.take(i + 1) =~= ov.take(i as int).push(ov[i as int]));
            ov.take(i as int).lemma_filter_push(ov[i as int], pred);
            assert(ov[i as int] == (overrides@[i as int].0@, overrides@[i as int].1));
        }
        if !str_eq(overrides[i].0.as_str(), key.as_str()) {
            let ghost before = r@;
            r.push((overrides[i].0.clone(), overrides[i].1));
            proof {
                assert(override_views(r@) =~= override_views(before).push(ov[i as int]));
            }
        }
        i += 1;
    }
    proof {
        assert(ov.take(overrides.len() as int) =~= ov);
    }
    r
}

/// After a pick, exactly one stored override concerns the picked base: the
/// pick itself.
pub proof fn law_one_override_per_base(overrides: Seq<(Seq<char>, u128)>, base: i32, variant: i32, id: u128)
    ensures
        ({
            let o = overridden_keys(overrides, base, variant, id);
            &&& o.last() == (override_key(base, variant), id)
            &&& forall|i: int| 0 <= i < o.len() - 1 ==> !starts_with_spec(#[trigger] o[i].0, base_prefix(base))
        }),
{
    let pred = outside_base(base);
    let o = overridden_keys(overrides, base, variant, id);
    assert forall|i: int| 0 <= i < o.len() - 1 implies !starts_with_spec(#[trigger] o[i].0, base_prefix(base)) by {
        overrides.lemma_filter_pred(pred, i);
    }
}

} // verus!
