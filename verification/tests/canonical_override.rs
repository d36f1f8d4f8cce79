use rebarr::canonical::ScoredChapter;
use rebarr::canonical_override::{override_key_text, remove_canonical_override, set_canonical_override};

fn ch(id: u128, base: i32, variant: i32, provider: Option<u32>, is_extra: bool) -> ScoredChapter {
    ScoredChapter {
        id,
        chapter_base: base,
        chapter_variant: variant,
        is_extra,
        title: None,
        language: "EN".to_string(),
        provider,
        score: 0,
    }
}

#[test]
fn picking_a_full_chapter_replaces_its_base() {
    let all = vec![ch(1, 2, 0, Some(1), false), ch(2, 2, 1, Some(2), false), ch(3, 2, 2, Some(2), false), ch(4, 3, 0, Some(1), false)];
    let current = vec![(2, 2), (3, 2), (4, 3)];
    let overrides = vec![("2:1".to_string(), 2), ("3:0".to_string(), 4), ("22:0".to_string(), 9)];
    let (list, keys) = set_canonical_override(&current, &all, &overrides, 2, 0, 1).unwrap();
    assert_eq!(list, vec![4, 1]);
    assert_eq!(keys, vec![("3:0".to_string(), 4), ("22:0".to_string(), 9), ("2:0".to_string(), 1)]);
    assert!(set_canonical_override(&current, &all, &overrides, 2, 0, 99).is_none());
}

#[test]
fn picking_a_split_part_brings_its_bundle() {
    let all = vec![
        ch(10, 5, 2, Some(7), false),
        ch(11, 5, 1, Some(7), false),
        ch(12, 5, 3, Some(8), false),
        ch(13, 5, 5, Some(7), false),
        ch(14, 5, 3, Some(7), true),
        ch(15, 5, 0, Some(8), false),
    ];
    let current = vec![(15, 5)];
    let (list, keys) = set_canonical_override(&current, &all, &vec![], 5, 2, 10).unwrap();
    assert_eq!(list, vec![11, 10]);
    assert_eq!(keys, vec![("5:2".to_string(), 10)]);
    let (list, _) = set_canonical_override(&current, &all, &vec![], 5, 3, 12).unwrap();
    assert_eq!(list, vec![12]);
}

#[test]
fn removing_an_override_drops_only_its_key() {
    let overrides = vec![("2:1".to_string(), 2), ("2:0".to_string(), 3), ("-1:0".to_string(), 4)];
    assert_eq!(remove_canonical_override(&overrides, 2, 1), vec![("2:0".to_string(), 3), ("-1:0".to_string(), 4)]);
    assert_eq!(override_key_text(-1, 0), "-1:0");
}
