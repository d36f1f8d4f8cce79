use rebarr::ids::library_uuid;
use rebarr::libraries::{
    backfill_deterministic_uuids, gets_suggestions, plan_new_library, LibraryKeyRow, MangaType, NewLibraryRequest,
};

#[test]
fn libraries_are_made_from_requests() {
    let lib = plan_new_library(&NewLibraryRequest { library_type: "Comics".to_string(), root_path: " /data/c ".to_string() }).unwrap();
    assert_eq!(lib.library_type, MangaType::Comics);
    assert_eq!(lib.root_path, "/data/c");
    assert_eq!(lib.uuid, library_uuid("Comics", "/data/c"));
    let lib = plan_new_library(&NewLibraryRequest { library_type: "anything".to_string(), root_path: "/m".to_string() }).unwrap();
    assert_eq!(lib.library_type, MangaType::Manga);
    assert_eq!(lib.uuid, library_uuid("anything", "/m"));
    let e = plan_new_library(&NewLibraryRequest { library_type: "Manga".to_string(), root_path: "  ".to_string() }).unwrap_err();
    assert_eq!((e.status.code(), e.body.error.as_str()), (400, "root_path cannot be empty"));
    assert!(gets_suggestions(MangaType::Manga));
    assert!(!gets_suggestions(MangaType::Comics));
}

fn key_row(uuid: &str, ty: &str, root: &str) -> LibraryKeyRow {
    LibraryKeyRow { uuid: uuid.to_string(), library_type: ty.to_string(), root_path: root.to_string() }
}

#[test]
fn libraries_move_to_derived_ids_once() {
    let a = library_uuid("Manga", "/a");
    let b = library_uuid("Manga", "/b");
    let a_text = uuid::Uuid::from_u128(a).to_string();
    let rows = vec![key_row(&a_text, "Manga", "/a"), key_row("old-1", "Manga", "/b"), key_row("old-2", "Manga", "/b"), key_row("old-3", "Comics", "/a")];
    let renames = backfill_deterministic_uuids(false, &rows);
    assert_eq!(renames, vec![("old-1".to_string(), b), ("old-3".to_string(), library_uuid("Comics", "/a"))]);
    assert!(backfill_deterministic_uuids(true, &rows).is_empty());
}
