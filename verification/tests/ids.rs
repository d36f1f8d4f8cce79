use rebarr::ids::{
    chapter_uuid, library_uuid, manga_uuid, manual_manga_uuid, uuid_string, CHAPTER_NAMESPACE,
    LIBRARY_NAMESPACE, MANGA_NAMESPACE,
};
use uuid::Uuid;

fn v5(ns: u128, name: &str) -> u128 {
    Uuid::new_v5(&Uuid::from_u128(ns), name.as_bytes()).as_u128()
}

#[test]
fn uuid_text_is_hyphenated_lowercase() {
    assert_eq!(uuid_string(CHAPTER_NAMESPACE), "7a2f4e10-c13b-5a80-b4e2-00c09d1a77f3");
    assert_eq!(uuid_string(0), "00000000-0000-0000-0000-000000000000");
    assert_eq!(uuid_string(u128::MAX), "ffffffff-ffff-ffff-ffff-ffffffffffff");
    let u = 0x0123_4567_89ab_cdef_0011_2233_4455_6677u128;
    assert_eq!(uuid_string(u), Uuid::from_u128(u).to_string());
}

#[test]
fn manga_ids_are_name_based() {
    let a = manga_uuid(30013);
    assert_eq!(a, v5(MANGA_NAMESPACE, "30013"));
    assert_ne!(a, manga_uuid(30014));
    assert_eq!(a, manga_uuid(30013));
    assert_eq!(Uuid::from_u128(a).get_version_num(), 5);
    assert_eq!(manual_manga_uuid("Berserk"), v5(MANGA_NAMESPACE, "Berserk"));
    // The AniList id's decimal text and a path with that text give the same id.
    assert_eq!(manual_manga_uuid("30013"), a);
}

#[test]
fn library_ids_key_type_and_path() {
    assert_eq!(library_uuid("Manga", "/data/manga"), v5(LIBRARY_NAMESPACE, "Manga:/data/manga"));
    assert_ne!(library_uuid("Manga", "/data/manga"), library_uuid("Comics", "/data/manga"));
}

#[test]
fn chapter_ids_key_the_unique_fields() {
    let m = 0x0123_4567_89ab_cdef_0011_2233_4455_6677u128;
    let id = chapter_uuid(m, 12, 5, "en", Some("Group"), Some("Prov"));
    assert_eq!(id, v5(CHAPTER_NAMESPACE, "01234567-89ab-cdef-0011-223344556677:12:5:EN:Group:Prov"));
    // The language's case does not matter; absent group and provider are empty.
    assert_eq!(id, chapter_uuid(m, 12, 5, "EN", Some("Group"), Some("Prov")));
    assert_eq!(
        chapter_uuid(m, -1, 0, "jp", None, None),
        v5(CHAPTER_NAMESPACE, "01234567-89ab-cdef-0011-223344556677:-1:0:JP::")
    );
    assert_eq!(chapter_uuid(m, 1, 0, "EN", Some(""), None), chapter_uuid(m, 1, 0, "EN", None, Some("")));
}
