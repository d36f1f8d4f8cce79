use rebarr::upgrades::{find_upgrade_candidates, UpgradeCandidate, UpgradeInput};

fn ch(id: u128, base: i32, variant: i32, downloaded: bool, score: i32) -> UpgradeInput {
    UpgradeInput { id, chapter_base: base, chapter_variant: variant, downloaded, score }
}

#[test]
fn upgrades_need_a_strictly_better_canonical() {
    let chapters = vec![
        ch(1, 1, 0, true, 10),
        ch(2, 1, 0, false, 20),
        ch(3, 2, 0, true, 20),
        ch(4, 2, 0, false, 20),
        ch(5, 3, 0, true, 5),
        ch(6, 3, 0, true, 1),
        ch(7, 3, 0, false, 9),
        ch(8, 4, 0, true, 1),
    ];
    let canonical = vec![2, 4, 7];
    let r = find_upgrade_candidates(&chapters, &canonical);
    assert_eq!(
        r,
        vec![
            UpgradeCandidate { chapter_base: 1, chapter_variant: 0, new_canonical_id: 2, old_downloaded_id: 1 },
            UpgradeCandidate { chapter_base: 3, chapter_variant: 0, new_canonical_id: 7, old_downloaded_id: 5 },
        ]
    );
    assert!(find_upgrade_candidates(&chapters, &vec![]).is_empty());
}
