use find_dups::about_the_same::RulesOfSimilarity;
use find_dups::rules::REFERENCE_UPEM;

#[test]
fn rules_for_the_reference_grid_stay_as_they_are() {
    let rules = RulesOfSimilarity { equivalence: 2000, budget: 100_000_000, error: 25_000 };
    assert_eq!(REFERENCE_UPEM, 1000);
    assert_eq!(rules.for_upem(1000), rules);
    let odd = RulesOfSimilarity { equivalence: 1, budget: u64::MAX, error: 7 };
    assert_eq!(odd.for_upem(1000), odd);
}

#[test]
fn rules_scale_with_the_grid() {
    // 2.0, 100.0 and 25.0 in thousandths of a unit and of a square unit
    let rules = RulesOfSimilarity { equivalence: 2000, budget: 100_000_000, error: 25_000 };
    let scaled = rules.for_upem(2048);
    assert_eq!(
        scaled,
        RulesOfSimilarity { equivalence: 4096, budget: 204_800_000, error: 51_200 }
    );
    assert_eq!(scaled.equivalence as f64 / 1e3, 4.096);
    assert_eq!(scaled.budget as f64 / 1e6, 204.8);
    assert_eq!(scaled.error as f64 / 1e3, 51.2);
}

#[test]
fn scaling_rounds_down() {
    let rules = RulesOfSimilarity { equivalence: 2, budget: 100, error: 25 };
    assert_eq!(
        rules.for_upem(2048),
        RulesOfSimilarity { equivalence: 4, budget: 204, error: 51 }
    );
    assert_eq!(
        rules.for_upem(999),
        RulesOfSimilarity { equivalence: 1, budget: 99, error: 24 }
    );
    assert_eq!(
        rules.for_upem(0),
        RulesOfSimilarity { equivalence: 0, budget: 0, error: 0 }
    );
}

#[test]
fn scaling_down_fits_whatever_the_thresholds() {
    let rules = RulesOfSimilarity { equivalence: u64::MAX, budget: u64::MAX, error: u64::MAX };
    let half = rules.for_upem(500);
    assert_eq!(half.equivalence, u64::MAX / 2);
    assert_eq!(half.budget, u64::MAX / 2);
    assert_eq!(half.error, u64::MAX / 2);
}

#[test]
fn scaling_up_to_the_largest_grid() {
    let rules = RulesOfSimilarity { equivalence: 2000, budget: 100_000_000, error: 25_000 };
    let scaled = rules.for_upem(u16::MAX);
    assert_eq!(scaled.equivalence, 131_070);
    assert_eq!(scaled.budget, 6_553_500_000);
    assert_eq!(scaled.error, 1_638_375);
}

#[test]
fn rules_that_would_not_fit_are_not_scaled() {
    let rules = RulesOfSimilarity { equivalence: 2, budget: u64::MAX / 2 + 1, error: 25 };
    assert_eq!(rules.checked_for_upem(2000), None);
    assert_eq!(rules.checked_for_upem(1000), Some(rules));
    assert_eq!(
        rules.checked_for_upem(1999),
        Some(RulesOfSimilarity {
            equivalence: 3,
            budget: ((u64::MAX as u128 / 2 + 1) * 1999 / 1000) as u64,
            error: 49
        })
    );
    let most = RulesOfSimilarity { equivalence: u64::MAX, budget: 0, error: 0 };
    assert_eq!(most.checked_for_upem(1001), None);
    assert_eq!(most.checked_for_upem(1000), Some(most));
}

#[test]
fn the_largest_grid_of_all() {
    assert_eq!(find_dups::rules::largest_upem(&vec![]), None);
    assert_eq!(find_dups::rules::largest_upem(&vec![1000]), Some(1000));
    assert_eq!(find_dups::rules::largest_upem(&vec![1000, 2048, 1024, 2048, 16]), Some(2048));
    assert_eq!(find_dups::rules::largest_upem(&vec![u16::MAX, 0]), Some(u16::MAX));
}
