use find_dups::about_the_same::{
    judge, ApproximatelyEqualError, Comparison, RulesOfSimilarity, SAMPLE_STEPS,
};

const RULES: RulesOfSimilarity = RulesOfSimilarity { equivalence: 2, budget: 100, error: 25 };

#[test]
fn eleven_samples_a_segment() {
    assert_eq!(SAMPLE_STEPS, 10);
    assert_eq!((0..=SAMPLE_STEPS).count(), 11);
}

#[test]
fn empty_outlines_agree() {
    assert_eq!(judge(true, true, RULES, &vec![]), Ok(()));
    assert_eq!(
        Comparison::begin(true, true, RULES),
        Ok(Comparison { rules: RULES, remaining_budget: 100 })
    );
}

#[test]
fn an_empty_outline_never_agrees_with_one_that_is_not() {
    assert_eq!(
        judge(true, false, RULES, &vec![]),
        Err(ApproximatelyEqualError::EmptinessMismatch)
    );
    assert_eq!(
        judge(false, true, RULES, &vec![0, 0, 0]),
        Err(ApproximatelyEqualError::EmptinessMismatch)
    );
    assert_eq!(
        Comparison::begin(false, true, RULES),
        Err(ApproximatelyEqualError::EmptinessMismatch)
    );
    assert_eq!(
        Comparison::begin(true, false, RULES),
        Err(ApproximatelyEqualError::EmptinessMismatch)
    );
}

#[test]
fn an_outline_agrees_with_itself() {
    // every sample of an outline is at separation zero from it
    for budget in [0, 1, 100] {
        let rules = RulesOfSimilarity { equivalence: 0, budget, error: 0 };
        assert_eq!(judge(false, false, rules, &vec![0; 44]), Ok(()));
    }
}

#[test]
fn samples_within_equivalence_are_free() {
    let rules = RulesOfSimilarity { equivalence: 2, budget: 0, error: 25 };
    assert_eq!(judge(false, false, rules, &vec![0, 1, 2, 2, 1, 0]), Ok(()));
    let mut comparison = Comparison::begin(false, false, RULES).unwrap();
    assert_eq!(comparison.sample(2), Ok(()));
    assert_eq!(comparison.remaining_budget, 100);
}

#[test]
fn tolerable_samples_spend_their_squares() {
    let mut comparison = Comparison::begin(false, false, RULES).unwrap();
    assert_eq!(comparison.sample(3), Ok(()));
    assert_eq!(comparison.remaining_budget, 91);
    assert_eq!(comparison.sample(9), Ok(()));
    assert_eq!(comparison.remaining_budget, 10);
    assert_eq!(comparison.sample(1), Ok(()));
    assert_eq!(comparison.remaining_budget, 10);
    assert_eq!(comparison.sample(4), Err(ApproximatelyEqualError::ExhaustedBudget(RULES)));
    assert_eq!(comparison.remaining_budget, 10);
    assert_eq!(comparison.sample(3), Ok(()));
    assert_eq!(comparison.remaining_budget, 1);
}

#[test]
fn the_budget_may_be_spent_to_the_last() {
    assert_eq!(judge(false, false, RULES, &vec![10]), Ok(()));
    assert_eq!(judge(false, false, RULES, &vec![6, 8]), Ok(()));
    assert_eq!(
        judge(false, false, RULES, &vec![6, 8, 3]),
        Err(ApproximatelyEqualError::ExhaustedBudget(RULES))
    );
    assert_eq!(
        judge(false, false, RULES, &vec![11]),
        Err(ApproximatelyEqualError::ExhaustedBudget(RULES))
    );
}

#[test]
fn one_sample_beyond_the_error_breaks_the_hard_deck() {
    for budget in [0, 100, u64::MAX] {
        let rules = RulesOfSimilarity { equivalence: 2, budget, error: 25 };
        let mut separations = vec![0_u64; 33];
        separations[17] = 26;
        assert_eq!(
            judge(false, false, rules, &separations),
            Err(ApproximatelyEqualError::BrokeTheHardDeck { separation: 26, rules })
        );
    }
    assert_eq!(judge(false, false, RULES, &vec![25]).is_ok(), false);
    assert_eq!(
        judge(false, false, RULES, &vec![25]),
        Err(ApproximatelyEqualError::ExhaustedBudget(RULES))
    );
}

#[test]
fn the_first_failure_decides() {
    assert_eq!(
        judge(false, false, RULES, &vec![9, 9, 30]),
        Err(ApproximatelyEqualError::ExhaustedBudget(RULES))
    );
    assert_eq!(
        judge(false, false, RULES, &vec![9, 30, 9]),
        Err(ApproximatelyEqualError::BrokeTheHardDeck { separation: 30, rules: RULES })
    );
    assert_eq!(
        judge(false, false, RULES, &vec![40, 30]),
        Err(ApproximatelyEqualError::BrokeTheHardDeck { separation: 40, rules: RULES })
    );
}

#[test]
fn the_budget_adds_up_over_equal_samples() {
    // 11 samples at separation 3 cost 99
    let separations = vec![3_u64; 11];
    for (budget, agree) in [(98, false), (99, true), (100, true), (0, false)] {
        let rules = RulesOfSimilarity { equivalence: 2, budget, error: 25 };
        let expected = if agree { Ok(()) } else { Err(ApproximatelyEqualError::ExhaustedBudget(rules)) };
        assert_eq!(judge(false, false, rules, &separations), expected);
    }
    // with nothing counted as equivalent, the excess is the whole separation
    for (budget, agree) in [(43, false), (44, true)] {
        let rules = RulesOfSimilarity { equivalence: 0, budget, error: 25 };
        assert_eq!(judge(false, false, rules, &vec![2_u64; 11]).is_ok(), agree);
    }
}

#[test]
fn equivalence_beyond_the_error_wins() {
    let rules = RulesOfSimilarity { equivalence: 30, budget: 0, error: 25 };
    assert_eq!(judge(false, false, rules, &vec![28, 30]), Ok(()));
    assert_eq!(
        judge(false, false, rules, &vec![31]),
        Err(ApproximatelyEqualError::BrokeTheHardDeck { separation: 31, rules })
    );
}

#[test]
fn the_largest_separations_do_not_overflow() {
    let rules = RulesOfSimilarity { equivalence: 0, budget: u64::MAX, error: u64::MAX };
    assert_eq!(
        judge(false, false, rules, &vec![u64::MAX]),
        Err(ApproximatelyEqualError::ExhaustedBudget(rules))
    );
    assert_eq!(judge(false, false, rules, &vec![u32::MAX as u64, 1]), Ok(()));
    assert_eq!(
        judge(false, false, rules, &vec![1 << 32]),
        Err(ApproximatelyEqualError::ExhaustedBudget(rules))
    );
}
