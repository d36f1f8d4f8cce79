//! Libraries: folders of series of one kind. Here: how a request makes a
//! library, which libraries get suggestions, and the one-time move of
//! libraries to ids derived from their type and root path.

use vstd::prelude::*;
use crate::errors::{bad_request, is_failure, ApiFailure, ApiStatus};
use crate::ids::{library_key, library_uuid, uuid_string, uuid_text, uuid_v5, LIBRARY_NAMESPACE};
use crate::text::{str_eq, trim, trim_seq};

verus! {

/// The kind of series a library holds.
#[derive(Debug, Clone, Copy, PartialEq, Eq, Structural)]
pub enum MangaType {
    Manga,
    Comics,
}

/// A request to make a library.
#[derive(Debug)]
pub struct NewLibraryRequest {
    pub library_type: String,
    pub root_path: String,
}

/// A request to move a library.
#[derive(Debug)]
pub struct UpdateLibraryRequest {
    pub root_path: String,
}

/// A request to hide or show a suggestion.
#[derive(Debug)]
pub struct SuggestionVisibilityRequest {
    pub hidden: bool,
}

/// A library to be stored.
#[derive(Debug)]
pub struct NewLibrary {
    pub uuid: u128,
    pub library_type: MangaType,
    pub root_path: String,
}

/// The kind named in a request: "Comics", or manga for any other name.
pub open spec fn library_type_of(name: Seq<char>) -> MangaType {
    if name == "Comics"@ { MangaType::Comics } else { MangaType::Manga }
}

/// A library from a request: its root path must not be blank; it is kept
/// trimmed, and the id comes from the requested type name and that path.
pub fn plan_new_library(req: &NewLibraryRequest) -> (r: Result<NewLibrary, ApiFailure>)
    ensures
        trim_seq(req.root_path@).len() == 0 <==> r is Err,
        r matches Err(f) ==> is_failure(f, ApiStatus::BadRequest, "root_path cannot be empty"@),
        r matches Ok(l) ==> {
            &&& l.root_path@ == trim_seq(req.root_path@)
            &&& l.library_type == library_type_of(req.library_type@)
            &&& l.uuid == uuid_v5(LIBRARY_NAMESPACE, library_key(req.library_type@, trim_seq(req.root_path@)))
        },
{
    let root = trim(req.root_path.as_str());
    if root.as_str().unicode_len() == 0 {
        return Err(bad_request("root_path cannot be empty"));
    }
    let library_type = if str_eq(req.library_type.as_str(), "Comics") { MangaType::Comics } else { MangaType::Manga };
    let uuid = library_uuid(req.library_type.as_str(), root.as_str());
    Ok(NewLibrary { uuid, library_type, root_path: root })
}

/// Only manga libraries get suggestions; others have theirs cleared.
pub fn gets_suggestions(t: MangaType) -> (r: bool)
    ensures
        r == (t == MangaType::Manga),
{
    match t {
        MangaType::Manga => true,
        MangaType::Comics => false,
    }
}

/// A stored library: its id as text, its type and its root path.
#[derive(Debug)]
pub struct LibraryKeyRow {
    pub uuid: String,
    pub library_type: String,
    pub root_path: String,
}

/// The id a library should have: derived from its type and root path.
pub open spec fn derived_id(row: LibraryKeyRow) -> u128 {
    uuid_v5(LIBRARY_NAMESPACE, library_key(row.library_type@, row.root_path@))
}

/// The library ids (as text) and the renames after the first `k` rows are
/// handled: a row whose derived id differs from its id, and is not already
/// some library's id, moves to it.
pub open spec fn backfill_state(rows: Seq<LibraryKeyRow>, k: int) -> (Seq<Seq<char>>, Seq<(Seq<char>, u128)>)
    decreases k,
{
    if k <= 0 {
        (rows.map_values(|r: LibraryKeyRow| r.uuid@), Seq::empty())
    } else {
        let (ids, renames) = backfill_state(rows, k - 1);
        let row = rows[k - 1];
        let new_text = uuid_text(derived_id(row));
        if new_text == row.uuid@ || ids.contains(new_text) {
            (ids, renames)
        } else {
            (ids.update(k - 1, new_text), renames.push((row.uuid@, derived_id(row))))
        }
    }
}

/// The renames of the one-time move to derived library ids, in order: none
/// when the move already ran. Each is a library's old id (as text) and its
/// new id; the series and tasks of the library follow it.
pub fn backfill_deterministic_uuids(already_ran: bool, rows: &Vec<LibraryKeyRow>) -> (r: Vec<(String, u128)>)
    ensures
        already_ran ==> r@.len() == 0,
        !already_ran ==> r@.map_values(|e: (String, u128)| (e.0@, e.1)) == backfill_state(rows@, rows@.len() as int).1,
{
    let mut r: Vec<(String, u128)> = Vec::new();
    if already_ran {
        return r;
    }
    let mut ids: Vec<String> = Vec::new();
    let mut i: usize = 0;
    while i < rows.len()
        invariant
            i <= rows.len(),
            ids@.map_values(|s: String| s@) == rows@.take(i as int).map_values(|r: LibraryKeyRow| r.uuid@),
        decreases rows.len() - i,
    {
        let ghost before = ids@;
        ids.push(rows[i].uuid.clone());
        proof {
            let a = ids@.map_values(|s: String| s@);
            let b = rows@.take(i + 1).map_values(|r: LibraryKeyRow| r.uuid@);
            let pa = before.map_values(|s: String| s@);
            let pb = rows@.take(i as int).map_values(|r: LibraryKeyRow| r.uuid@);
            assert(pa == pb);
            assert(pa.len() == before.len());
            assert(pb.len() == i);
            assert(ids@.len() == before.len() + 1);
            assert(a.len() == ids@.len());
            assert(b.len() == i + 1);
            assert(a.len() == b.len());
            assert forall|x: int| 0 <= x < a.len() implies a[x] == b[x] by {
                if x < i {
                    assert(ids@[x] == before[x]);
                    assert(pa[x] == pb[x]);
                }
            }
            assert(a =~= b);
        }
        i += 1;
    }
    proof {
        assert(rows@.take(rows.len() as int) =~= rows@);
    }
    let mut k: usize = 0;
    while k < rows.len()
        invariant
            k <= rows.len(),
            ids@.len() == rows@.len(),
            ids@.map_values(|s: String| s@) == backfill_state(rows@, k as int).0,
            r@.map_values(|e: (String, u128)| (e.0@, e.1)) == backfill_state(rows@, k as int).1,
        decreases rows.len() - k,
    {
        let row = &rows[k];
        let new_id = library_uuid(row.library_type.as_str(), row.root_path.as_str());
        let new_text = uuid_string(new_id);
        let ghost idv = ids@.map_values(|s: String| s@);
        proof {
            assert(backfill_state(rows@, k + 1) == {
                let (ids0, renames0) = backfill_state(rows@, k as int);
                if new_text@ == row.uuid@ || ids0.contains(new_text@) {
                    (ids0, renames0)
                } else {
                    (ids0.update(k as int, new_text@), renames0.push((row.uuid@, new_id)))
                }
            });
        }
        if !str_eq(new_text.as_str(), row.uuid.as_str()) {
            let mut taken = false;
            let mut m: usize = 0;
            while m < ids.len()
                invariant
                    m <= ids.len(),
                    idv == ids@.map_values(|s: String| s@),
                    taken <==> exists|x: int| 0 <= x < m && idv[x] == new_text@,
                decreases ids.len() - m,
            {
                proof {
                    assert(idv[m as int] == ids@[m as int]@);
                }
                if str_eq(ids[m].as_str(), new_text.as_str()) {
                    taken = true;
                }
                m += 1;
            }
            proof {
                assert(taken <==> idv.contains(new_text@));
            }
            if !taken {
                let ghost rbefore = r@;
                r.push((row.uuid.clone(), new_id));
                ids.set(k, new_text);
                proof {
                    assert(ids@.map_values(|s: String| s@) =~= idv.update(k as int, new_text@));
                    assert(r@.map_values(|e: (String, u128)| (e.0@, e.1)) =~= rbefore.map_values(|e: (String, u128)| (e.0@, e.1)).push(
                        (row.uuid@, new_id),
                    ));
                }
            }
        }
        k += 1;
    }
    r
}

} // verus!
