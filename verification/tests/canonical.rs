use rebarr::canonical::{
    assign_slot_id, classify_bundle, classify_extra, classify_extras, compute_bundle_coverage,
    detect_split_chapters, filter_enabled, filter_language, has_extra_title, prune_overrides,
    provider_enabled, select_best_bundle, select_canonical, BundleType, ProviderBundle,
    ScoredChapter,
};

fn ch(id: u128, base: i32, variant: i32, provider: Option<u32>, score: i32) -> ScoredChapter {
    ScoredChapter {
        id,
        chapter_base: base,
        chapter_variant: variant,
        is_extra: false,
        title: None,
        language: "EN".to_string(),
        provider,
        score,
    }
}

fn sorted(mut v: Vec<u128>) -> Vec<u128> {
    v.sort();
    v
}

#[test]
fn higher_score_wins_a_slot() {
    let all = vec![ch(1, 1, 0, Some(1), 10), ch(2, 1, 0, Some(2), 20), ch(3, 2, 0, Some(1), 5)];
    let r = select_canonical(&all, &[], &[], "", &[]);
    assert_eq!(sorted(r.canonical), vec![2, 3]);
    assert!(r.extra_updates.is_empty());
}

#[test]
fn split_bundle_wins_a_tie_by_coverage() {
    // Provider 1 splits chapter 3 in two parts, provider 2 has it whole; equal scores.
    let all = vec![ch(31, 3, 1, Some(1), 5), ch(32, 3, 2, Some(1), 5), ch(30, 3, 0, Some(2), 5)];
    let r = select_canonical(&all, &[], &[], "", &[]);
    assert_eq!(sorted(r.canonical), vec![31, 32]);
}

#[test]
fn override_replaces_the_automatic_choice() {
    let all = vec![ch(31, 3, 1, Some(1), 5), ch(32, 3, 2, Some(1), 5), ch(30, 3, 0, Some(2), 1)];
    let r = select_canonical(&all, &[], &[], "", &[30]);
    assert_eq!(r.canonical, vec![30]);
    // Choosing one part brings its siblings of the same provider.
    let r = select_canonical(&all, &[], &[], "", &[32]);
    assert_eq!(sorted(r.canonical), vec![31, 32]);
}

#[test]
fn disabled_providers_take_no_part() {
    let all = vec![ch(1, 1, 0, Some(1), 10), ch(2, 1, 0, Some(2), 20)];
    let r = select_canonical(&all, &[], &[2], "", &[]);
    assert_eq!(r.canonical, vec![1]);
    // A series override enables a globally disabled provider.
    let r = select_canonical(&all, &[(2, true)], &[2], "", &[]);
    assert_eq!(r.canonical, vec![2]);
    // And can disable an enabled one.
    let r = select_canonical(&all, &[(2, false)], &[], "", &[]);
    assert_eq!(r.canonical, vec![1]);
    assert!(provider_enabled(None, &[], &[1, 2]));
    assert!(!provider_enabled(Some(1), &[], &[1]));
    assert_eq!(filter_enabled(&all, &[], &[1]).len(), 1);
}

#[test]
fn preferred_language_filters_with_fallback() {
    let mut jp = ch(1, 1, 0, Some(1), 50);
    jp.language = "JP".to_string();
    let en = ch(2, 1, 0, Some(2), 10);
    let mut none = ch(3, 2, 0, Some(2), 10);
    none.language = String::new();
    let all = vec![jp, en, none];
    let kept = filter_language(&all, "en");
    assert_eq!(kept.iter().map(|c| c.id).collect::<Vec<_>>(), vec![2, 3]);
    let r = select_canonical(&all, &[], &[], "en", &[]);
    assert_eq!(sorted(r.canonical), vec![2, 3]);
    // Chapters without a language always count as the preferred one.
    assert_eq!(filter_language(&all, "fr").iter().map(|c| c.id).collect::<Vec<_>>(), vec![3]);
    assert_eq!(filter_language(&all, "").len(), 3);
    // No chapter in the preferred language: all of them take part.
    let mut jp = ch(1, 1, 0, Some(1), 50);
    jp.language = "JP".to_string();
    let all = vec![jp, ch(2, 1, 0, Some(2), 10)];
    assert_eq!(filter_language(&all, "fr").len(), 2);
    let r = select_canonical(&all, &[], &[], "fr", &[]);
    assert_eq!(r.canonical, vec![1]);
}

#[test]
fn slots_of_decimal_chapters() {
    let all = vec![ch(1, 5, 5, Some(1), 0), ch(2, 7, 1, Some(1), 0), ch(3, 7, 2, Some(1), 0)];
    // A standalone decimal is its own slot; parts of a split share the base's slot.
    assert_eq!(assign_slot_id(5, 5, &all), 55);
    assert_eq!(assign_slot_id(7, 2, &all), 70);
    assert_eq!(assign_slot_id(5, 0, &all), 50);
    assert!(detect_split_chapters(7, &all));
    assert!(!detect_split_chapters(5, &all));
}

#[test]
fn bundles_are_classified() {
    let all = vec![ch(1, 5, 5, Some(1), 0), ch(2, 7, 1, Some(1), 0), ch(3, 7, 2, Some(1), 0), ch(4, 8, 0, Some(1), 0)];
    assert_eq!(classify_bundle(&[ch(1, 5, 5, Some(1), 0)], &all), BundleType::Extra);
    assert_eq!(classify_bundle(&[ch(4, 8, 0, Some(1), 0)], &all), BundleType::Full);
    let split = [ch(2, 7, 1, Some(1), 0), ch(3, 7, 2, Some(1), 0)];
    assert_eq!(classify_bundle(&split, &all), BundleType::Split);
    assert_eq!(compute_bundle_coverage(&split, &all), 2);
    let competing = [ch(2, 7, 1, Some(1), 0), ch(9, 7, 1, Some(1), 0)];
    assert_eq!(classify_bundle(&competing, &all), BundleType::Full);
    assert_eq!(compute_bundle_coverage(&competing, &all), 1);
}

#[test]
fn extras_are_classified() {
    let mut bonus = ch(1, 2, 1, Some(1), 0);
    bonus.title = Some("Bonus Chapter".to_string());
    assert!(has_extra_title(&bonus));
    let lone = ch(2, 4, 5, Some(1), 0);
    let parts = vec![ch(3, 6, 4, Some(1), 0), ch(4, 6, 5, Some(1), 0)];
    let whole = ch(5, 7, 0, Some(1), 0);
    let all = vec![bonus, lone, parts[0].copy(), parts[1].copy(), whole];
    assert_eq!(classify_extra(&all, &all[1]), Some(true));
    assert_eq!(classify_extra(&all, &all[3]), Some(false));
    assert_eq!(classify_extra(&all, &all[2]), None);
    assert_eq!(classify_extra(&all, &all[4]), None);
    assert_eq!(classify_extras(&all), vec![(1, true), (2, true), (4, false)]);
}

#[test]
fn stale_overrides_are_pruned() {
    let all = vec![ch(1, 1, 0, Some(1), 0)];
    let kept = prune_overrides(&[("1:0".to_string(), 1), ("2:0".to_string(), 99)], &all);
    assert_eq!(kept, vec![("1:0".to_string(), 1)]);
}

#[test]
fn chosen_bundle_gives_its_best_scored_entry() {
    let low = ProviderBundle {
        entries: vec![ch(1, 4, 0, Some(1), 3)],
        bundle_type: BundleType::Full,
        coverage: 1,
    };
    let high = ProviderBundle {
        entries: vec![ch(2, 4, 0, Some(2), 9), ch(3, 4, 0, Some(2), 40), ch(4, 4, 0, Some(2), 12)],
        bundle_type: BundleType::Full,
        coverage: 1,
    };
    assert_eq!(select_best_bundle(&[low, high]), vec![3]);
}
