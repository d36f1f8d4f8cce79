//! Which stored suggestions the user hid, per library: a refresh replaces a
//! library's suggestions but carries over what was hidden there, and hiding a
//! suggestion in one library does not hide it in another.

use vstd::prelude::*;
use crate::errors::{bad_request, is_failure, not_found, ApiFailure, ApiStatus};
use crate::libraries::SuggestionVisibilityRequest;
use crate::manga::{parse_uuid, uuid_parsed};

verus! {

/// The stored visibility of one suggestion of a library.
#[derive(Debug, Clone, Copy, PartialEq, Eq, Structural)]
pub struct HiddenState {
    pub library_id: u128,
    pub target_anilist_id: u32,
    pub hidden: bool,
    /// When it was hidden (Unix seconds).
    pub hidden_at: Option<i64>,
}

/// The row is the library's suggestion of the target.
pub open spec fn is_row(r: HiddenState, library_id: u128, target: u32) -> bool {
    r.library_id == library_id && r.target_anilist_id == target
}

/// The stored hidden flag and time of the library's suggestion of the target:
/// those of its last row, or shown when it has none.
pub open spec fn state_for(rows: Seq<HiddenState>, library_id: u128, target: u32) -> (bool, Option<i64>)
    decreases rows.len(),
{
    if rows.len() == 0 {
        (false, None)
    } else if is_row(rows.last(), library_id, target) {
        (rows.last().hidden, rows.last().hidden_at)
    } else {
        state_for(rows.drop_last(), library_id, target)
    }
}

/// Whether the library's suggestion of the target is hidden.
pub open spec fn is_hidden_spec(rows: Seq<HiddenState>, library_id: u128, target: u32) -> bool {
    state_for(rows, library_id, target).0
}

/// Rows of other libraries.
pub open spec fn other_library(library_id: u128) -> spec_fn(HiddenState) -> bool {
    |r: HiddenState| r.library_id != library_id
}

/// The library's new rows after a refresh: one per target, in order, each
/// keeping the stored visibility of that target.
pub open spec fn fresh_rows(before: Seq<HiddenState>, library_id: u128, targets: Seq<u32>) -> Seq<HiddenState> {
    Seq::new(
        targets.len(),
        |i: int|
            HiddenState {
                library_id,
                target_anilist_id: targets[i],
                hidden: state_for(before, library_id, targets[i]).0,
                hidden_at: state_for(before, library_id, targets[i]).1,
            },
    )
}

/// The rows after a refresh of the library's suggestions.
pub open spec fn refreshed_rows(before: Seq<HiddenState>, library_id: u128, targets: Seq<u32>) -> Seq<HiddenState> {
    before.filter(other_library(library_id)) + fresh_rows(before, library_id, targets)
}

/// The rows after hiding (or showing) the library's suggestion of the target at `now`.
pub open spec fn with_visibility(before: Seq<HiddenState>, library_id: u128, target: u32, hidden: bool, now: i64) -> Seq<HiddenState> {
    Seq::new(
        before.len(),
        |i: int|
            if is_row(before[i], library_id, target) {
                HiddenState { hidden, hidden_at: if hidden { Some(now) } else { None }, ..before[i] }
            } else {
                before[i]
            },
    )
}

/// The stored visibility of every library's suggestions.
pub struct SuggestionVisibility {
    rows: Vec<HiddenState>,
}

impl SuggestionVisibility {
    /// The stored rows.
    pub closed spec fn view(&self) -> Seq<HiddenState> {
        self.rows@
    }

    /// Nothing stored.
    pub fn new() -> (r: Self)
        ensures
            r.view() == Seq::<HiddenState>::empty(),
    {
        SuggestionVisibility { rows: Vec::new() }
    }

    fn state_of(&self, library_id: u128, target: u32) -> (r: (bool, Option<i64>))
        ensures
            r == state_for(self.view(), library_id, target),
    {
        let mut i: usize = self.rows.len();
        assert(self.rows@.take(i as int) =~= self.rows@);
        while i > 0
            invariant
                i <= self.rows@.len(),
                state_for(self.rows@, library_id, target) == state_for(self.rows@.take(i as int), library_id, target),
            decreases i,
        {
            let r = self.rows[i - 1];
            assert(self.rows@.take(i as int).drop_last() =~= self.rows@.take(i - 1));
            assert(self.rows@.take(i as int).last() == r);
            if r.library_id == library_id && r.target_anilist_id == target {
                return (r.hidden, r.hidden_at);
            }
            i = i - 1;
        }
        (false, None)
    }

    /// Whether the library's suggestion of the target is hidden.
    pub fn is_hidden(&self, library_id: u128, target: u32) -> (r: bool)
        ensures
            r == is_hidden_spec(self.view(), library_id, target),
    {
        self.state_of(library_id, target).0
    }

    /// Replaces the library's suggestions by the targets, in order; each keeps
    /// the visibility stored for it in that library. Other libraries keep theirs.
    pub fn replace_library_suggestions(&mut self, library_id: u128, targets: &[u32])
        ensures
            final(self).view() == refreshed_rows(old(self).view(), library_id, targets@),
    {
        let ghost before = self.rows@;
        let ghost keep = other_library(library_id);
        let mut next: Vec<HiddenState> = Vec::new();
        let mut i: usize = 0;
        while i < self.rows.len()
            invariant
                self.rows@ == before,
                keep == other_library(library_id),
                i <= before.len(),
                next@ == before.take(i as int).filter(keep),
            decreases self.rows.len() - i,
        {
            proof {
                assert(before.take(i + 1) =~= before.take(i as int).push(before[i as int]));
                before.take(i as int).lemma_filter_push(before[i as int], keep);
            }
            if self.rows[i].library_id != library_id {
                next.push(self.rows[i]);
            }
            i = i + 1;
        }
        proof {
            assert(before.take(before.len() as int) =~= before);
        }
        let ghost kept = next@;
        let mut k: usize = 0;
        while k < targets.len()
            invariant
                self.rows@ == before,
                k <= targets@.len(),
                kept == before.filter(keep),
                keep == other_library(library_id),
                next@ == kept + fresh_rows(before, library_id, targets@.take(k as int)),
            decreases targets.len() - k,
        {
            let (hidden, hidden_at) = self.state_of(library_id, targets[k]);
            next.push(HiddenState { library_id, target_anilist_id: targets[k], hidden, hidden_at });
            assert(fresh_rows(before, library_id, targets@.take(k + 1)) =~= fresh_rows(before, library_id, targets@.take(k as int)).push(
                HiddenState { library_id, target_anilist_id: targets@[k as int], hidden, hidden_at },
            ));
            assert(next@ =~= kept + fresh_rows(before, library_id, targets@.take(k + 1)));
            k = k + 1;
        }
        assert(targets@.take(targets@.len() as int) =~= targets@);
        self.rows = next;
    }

    /// Hides or shows the library's suggestion of the target at `now`; returns
    /// whether the library has that suggestion.
    pub fn set_hidden(&mut self, library_id: u128, target: u32, hidden: bool, now: i64) -> (found: bool)
        ensures
            found == exists|i: int| 0 <= i < old(self).view().len() && is_row(#[trigger] old(self).view()[i], library_id, target),
            final(self).view() == with_visibility(old(self).view(), library_id, target, hidden, now),
    {
        let ghost before = self.rows@;
        let mut found = false;
        let mut i: usize = 0;
        while i < self.rows.len()
            invariant
                i <= self.rows@.len(),
                self.rows@.len() == before.len(),
                found == exists|j: int| 0 <= j < i && is_row(#[trigger] before[j], library_id, target),
                forall|j: int| 0 <= j < i ==> #[trigger] self.rows@[j] == with_visibility(before, library_id, target, hidden, now)[j],
                forall|j: int| i <= j < before.len() ==> #[trigger] self.rows@[j] == before[j],
            decreases self.rows.len() - i,
        {
            let r = self.rows[i];
            assert(r == before[i as int]);
            if r.library_id == library_id && r.target_anilist_id == target {
                let u = HiddenState { hidden, hidden_at: if hidden { Some(now) } else { None }, ..r };
                self.rows.set(i, u);
                found = true;
                assert(is_row(before[i as int], library_id, target));
            } else {
                assert(!is_row(before[i as int], library_id, target));
                assert(found == exists|j: int| 0 <= j < i + 1 && is_row(#[trigger] before[j], library_id, target));
            }
            i = i + 1;
        }
        assert(self.rows@ =~= with_visibility(before, library_id, target, hidden, now));
        assert(before == old(self).view());
        assert(i == before.len());
        found
    }
}

/// `PATCH /api/libraries/<id>/suggestions/<anilist_id>`: hides or shows the
/// suggestion and answers with the library's id, whose list is then shown. An
/// id that does not read as a UUID is refused (400), a suggestion the library
/// does not have is not found (404).
pub fn set_suggestion_visibility(
    store: &mut SuggestionVisibility,
    id: &str,
    anilist_id: u32,
    body: &SuggestionVisibilityRequest,
    now: i64,
) -> (r: Result<u128, ApiFailure>)
    ensures
        match uuid_parsed(id@) {
            None => (r matches Err(f) && is_failure(f, ApiStatus::BadRequest, "invalid UUID"@)) && final(store).view() == old(store).view(),
            Some(lib) => {
                &&& final(store).view() == with_visibility(old(store).view(), lib, anilist_id, body.hidden, now)
                &&& (exists|i: int| 0 <= i < old(store).view().len() && is_row(#[trigger] old(store).view()[i], lib, anilist_id))
                    ==> r == Ok::<u128, ApiFailure>(lib)
                &&& !(exists|i: int| 0 <= i < old(store).view().len() && is_row(#[trigger] old(store).view()[i], lib, anilist_id))
                    ==> (r matches Err(f) && is_failure(f, ApiStatus::NotFound, "suggestion not found"@))
            },
        },
{
    let library_id = match parse_uuid(id) {
        Some(u) => u,
        None => return Err(bad_request("invalid UUID")),
    };
    if store.set_hidden(library_id, anilist_id, body.hidden, now) {
        Ok(library_id)
    } else {
        Err(not_found("suggestion not found"))
    }
}

proof fn lemma_state_skips_other(rows: Seq<HiddenState>, library_id: u128, other: u128, target: u32)
    requires
        library_id != other,
    ensures
        state_for(rows.filter(other_library(other)), library_id, target) == state_for(rows, library_id, target),
    decreases rows.len(),
{
    let p = other_library(other);
    if rows.len() > 0 {
        let dl = rows.drop_last();
        let last = rows.last();
        lemma_state_skips_other(dl, library_id, other, target);
        assert(rows =~= dl.push(last));
        dl.lemma_filter_push(last, p);
        let fd = dl.filter(p);
        if p(last) {
            assert(fd.push(last).drop_last() =~= fd);
            assert(fd.push(last).last() == last);
            assert(rows.filter(p) == fd.push(last));
        } else {
            assert(rows.filter(p) == fd);
            assert(!is_row(last, library_id, target));
        }
    } else {
        assert(rows.filter(p) =~= rows);
    }
}

proof fn lemma_state_of_append(a: Seq<HiddenState>, b: Seq<HiddenState>, library_id: u128, target: u32)
    ensures
        (forall|i: int| 0 <= i < b.len() ==> !is_row(#[trigger] b[i], library_id, target))
            ==> state_for(a + b, library_id, target) == state_for(a, library_id, target),
    decreases b.len(),
{
    if b.len() > 0 {
        lemma_state_of_append(a, b.drop_last(), library_id, target);
        assert((a + b).drop_last() =~= a + b.drop_last());
        assert((a + b).last() == b.last());
        if forall|i: int| 0 <= i < b.len() ==> !is_row(#[trigger] b[i], library_id, target) {
            assert(!is_row(b[b.len() - 1], library_id, target));
            assert forall|i: int| 0 <= i < b.drop_last().len() implies !is_row(#[trigger] b.drop_last()[i], library_id, target) by {
                assert(b.drop_last()[i] == b[i]);
            }
        }
    } else {
        assert(a + b =~= a);
    }
}

proof fn lemma_state_of_fresh(a: Seq<HiddenState>, before: Seq<HiddenState>, library_id: u128, targets: Seq<u32>, target: u32)
    requires
        targets.contains(target),
    ensures
        state_for(a + fresh_rows(before, library_id, targets), library_id, target) == state_for(before, library_id, target),
    decreases targets.len(),
{
    let f = fresh_rows(before, library_id, targets);
    assert((a + f).last() == f.last());
    if targets.last() == target {
        assert(f.last() == f[f.len() - 1]);
    } else {
        let t2 = targets.drop_last();
        let k = choose|k: int| 0 <= k < targets.len() && targets[k] == target;
        assert(t2[k] == target);
        assert(fresh_rows(before, library_id, t2) =~= f.drop_last());
        assert((a + f).drop_last() =~= a + fresh_rows(before, library_id, t2));
        lemma_state_of_fresh(a, before, library_id, t2, target);
    }
}

/// A refresh of a library keeps the visibility of each suggestion it keeps:
/// what was hidden there stays hidden, what was shown stays shown.
pub proof fn law_refresh_keeps_hidden(before: Seq<HiddenState>, library_id: u128, targets: Seq<u32>, target: u32)
    requires
        targets.contains(target),
    ensures
        is_hidden_spec(refreshed_rows(before, library_id, targets), library_id, target) == is_hidden_spec(before, library_id, target),
{
    lemma_state_of_fresh(before.filter(other_library(library_id)), before, library_id, targets, target);
}

/// A refresh of one library changes nothing of what another library hid.
pub proof fn law_refresh_leaves_other_libraries(before: Seq<HiddenState>, refreshed: u128, targets: Seq<u32>, library_id: u128, target: u32)
    requires
        refreshed != library_id,
    ensures
        is_hidden_spec(refreshed_rows(before, refreshed, targets), library_id, target) == is_hidden_spec(before, library_id, target),
{
    let f = fresh_rows(before, refreshed, targets);
    assert forall|i: int| 0 <= i < f.len() implies !is_row(#[trigger] f[i], library_id, target) by {}
    lemma_state_of_append(before.filter(other_library(refreshed)), f, library_id, target);
    lemma_state_skips_other(before, library_id, refreshed, target);
}

/// Hiding or showing a suggestion the library has is what is read back; no
/// other suggestion, and no other library, changes.
pub proof fn law_visibility_read_back(before: Seq<HiddenState>, library_id: u128, target: u32, hidden: bool, now: i64, other_lib: u128, other_target: u32)
    requires
        exists|i: int| 0 <= i < before.len() && is_row(#[trigger] before[i], library_id, target),
    ensures
        is_hidden_spec(with_visibility(before, library_id, target, hidden, now), library_id, target) == hidden,
        !(other_lib == library_id && other_target == target) ==> is_hidden_spec(
            with_visibility(before, library_id, target, hidden, now),
            other_lib,
            other_target,
        ) == is_hidden_spec(before, other_lib, other_target),
    decreases before.len(),
{
    let after = with_visibility(before, library_id, target, hidden, now);
    let n = before.len() - 1;
    assert(after.last() == after[n]);
    assert(before.last() == before[n]);
    assert(after.drop_last() =~= with_visibility(before.drop_last(), library_id, target, hidden, now));
    if !is_row(before[n], library_id, target) {
        let i = choose|i: int| 0 <= i < before.len() && is_row(#[trigger] before[i], library_id, target);
        assert(before.drop_last()[i] == before[i]);
        law_visibility_read_back(before.drop_last(), library_id, target, hidden, now, other_lib, other_target);
    } else if !(other_lib == library_id && other_target == target) {
        lemma_others_unchanged(before.drop_last(), library_id, target, hidden, now, other_lib, other_target);
    }
}

proof fn lemma_others_unchanged(before: Seq<HiddenState>, library_id: u128, target: u32, hidden: bool, now: i64, other_lib: u128, other_target: u32)
    requires
        !(other_lib == library_id && other_target == target),
    ensures
        state_for(with_visibility(before, library_id, target, hidden, now), other_lib, other_target) == state_for(before, other_lib, other_target),
    decreases before.len(),
{
    if before.len() > 0 {
        let after = with_visibility(before, library_id, target, hidden, now);
        let n = before.len() - 1;
        assert(after.last() == after[n]);
        assert(before.last() == before[n]);
        assert(after.drop_last() =~= with_visibility(before.drop_last(), library_id, target, hidden, now));
        lemma_others_unchanged(before.drop_last(), library_id, target, hidden, now, other_lib, other_target);
    }
}

} // verus!
