use rebarr::fixtures::{
    chapter_count_check, first_chapter_diffs, page_count_check, seed_fixture, short_err,
    ChapterFixture, CheckOutcome, CheckTally, FixtureField, FixtureResult, RunTotals,
};

fn chapter(raw: &str) -> ChapterFixture {
    ChapterFixture {
        raw_number: raw.to_string(),
        title: Some("T".to_string()),
        scanlator_group: None,
        language: Some("en".to_string()),
        date_released: Some(100),
        url: Some("https://x/1".to_string()),
    }
}

#[test]
fn count_checks() {
    assert_eq!(chapter_count_check(0, 5), CheckOutcome::Skip);
    assert_eq!(chapter_count_check(5, 5), CheckOutcome::Pass);
    assert_eq!(chapter_count_check(6, 5), CheckOutcome::Fail);
    assert_eq!(page_count_check(0, 0), CheckOutcome::Pass);
    assert_eq!(page_count_check(3, 2), CheckOutcome::Fail);
    assert_eq!(page_count_check(3, 3), CheckOutcome::Pass);
}

#[test]
fn first_chapter_changes_are_listed_in_order() {
    let a = chapter("1");
    assert!(first_chapter_diffs(&a, &chapter("1")).is_empty());
    let mut b = chapter("2");
    b.language = None;
    b.date_released = Some(101);
    assert_eq!(
        first_chapter_diffs(&a, &b),
        vec![FixtureField::RawNumber, FixtureField::Language, FixtureField::DateReleased]
    );
}

#[test]
fn fixtures_are_seeded_with_slack() {
    let f = seed_fixture("P".to_string(), "q".to_string(), "Title".to_string(), 25, chapter("1"), "u".to_string(), 20);
    assert_eq!(f.expected_min_chapters, 15);
    assert_eq!(f.expected_min_pages, 17);
    let f = seed_fixture("P".to_string(), "q".to_string(), "Title".to_string(), 4, chapter("1"), "u".to_string(), 2);
    assert_eq!(f.expected_min_chapters, 0);
    assert_eq!(f.expected_min_pages, 1);
    assert_eq!(f.first_chapter.unwrap().raw_number, "1");
}

#[test]
fn results_and_totals() {
    let mut t = CheckTally::new();
    assert_eq!(t.result(), FixtureResult::Seed);
    t.record(CheckOutcome::Skip);
    assert_eq!(t.result(), FixtureResult::Seed);
    t.record(CheckOutcome::Pass);
    assert_eq!(t.result(), FixtureResult::Pass);
    t.record(CheckOutcome::Fail);
    assert_eq!(t.result(), FixtureResult::Fail);
    let mut run = RunTotals::new();
    run.record(FixtureResult::Pass);
    run.record(FixtureResult::Fail);
    assert_eq!(run.summary(), "1/2 passed, 1 failed");
    run.record(FixtureResult::Seed);
    assert_eq!(run.summary(), "1/2 passed, 1 failed, 1 not seeded (run `test --update` to seed them)");
}

#[test]
fn long_errors_are_cut_to_sixty_bytes() {
    let long = "x".repeat(70);
    assert_eq!(short_err(&long), "x".repeat(60));
    assert_eq!(short_err("short"), "short");
    let exact = "y".repeat(60);
    assert_eq!(short_err(&exact), exact);
    // Two-byte characters: the cut falls between characters.
    let wide = "é".repeat(40);
    assert_eq!(short_err(&wide), "é".repeat(30));
}
