use find_dups::about_the_same::{AboutTheSame, ApproximatelyEqualError, RulesOfSimilarity};
use find_dups::grouping::{group_letterforms, is_grouped, place, LetterformGroup};

const RULES: RulesOfSimilarity = RulesOfSimilarity { equivalence: 2, budget: 100, error: 25 };

/// A shape that is about the same as another when their numbers differ by
/// at most `rules.equivalence`.
#[derive(Debug, Clone, Copy, PartialEq, Eq)]
struct Width(u64);

impl AboutTheSame for Width {
    fn similar(&self, other: &Self, rules: RulesOfSimilarity) -> bool {
        self.approximately_equal(other, rules).is_ok()
    }

    fn approximately_equal(
        &self,
        other: &Self,
        rules: RulesOfSimilarity,
    ) -> Result<(), ApproximatelyEqualError> {
        let separation = self.0.abs_diff(other.0);
        if separation <= rules.equivalence {
            Ok(())
        } else {
            Err(ApproximatelyEqualError::BrokeTheHardDeck { separation, rules })
        }
    }
}

/// A shape that only ever finds larger ones about the same as itself.
#[derive(Debug, Clone, Copy, PartialEq, Eq)]
struct OneWay(u64);

impl AboutTheSame for OneWay {
    fn similar(&self, other: &Self, rules: RulesOfSimilarity) -> bool {
        self.approximately_equal(other, rules).is_ok()
    }

    fn approximately_equal(
        &self,
        other: &Self,
        rules: RulesOfSimilarity,
    ) -> Result<(), ApproximatelyEqualError> {
        if self.0 <= other.0 {
            Ok(())
        } else {
            Err(ApproximatelyEqualError::ExhaustedBudget(rules))
        }
    }
}

fn sources<T>(groups: &[LetterformGroup<T>]) -> Vec<Vec<u64>> {
    groups.iter().map(|g| g.letterforms.iter().map(|m| m.0).collect()).collect()
}

#[test]
fn a_new_group_holds_its_first_member() {
    let group = LetterformGroup::new(7, Width(10));
    assert_eq!(group.letterforms, vec![(7, Width(10))]);
    assert!(group.contains_source(7));
    assert!(!group.contains_source(8));
}

#[test]
fn a_group_matches_through_any_member() {
    let mut group = LetterformGroup::new(1, Width(10));
    assert_eq!(group.insert(2, Width(12)), None);
    assert!(group.matches(&Width(14), RULES));
    assert!(group.matches(&Width(8), RULES));
    assert!(!group.matches(&Width(15), RULES));
}

#[test]
fn insert_replaces_the_letterform_of_a_source_already_there() {
    let mut group = LetterformGroup::new(1, Width(10));
    assert_eq!(group.insert(2, Width(11)), None);
    assert_eq!(group.insert(3, Width(12)), None);
    assert_eq!(group.insert(2, Width(13)), Some(Width(11)));
    assert_eq!(group.letterforms, vec![(1, Width(10)), (2, Width(13)), (3, Width(12))]);
}

#[test]
fn the_first_matching_group_takes_the_letterform() {
    let mut groups = vec![
        LetterformGroup::new(1, Width(10)),
        LetterformGroup::new(2, Width(14)),
        LetterformGroup::new(3, Width(30)),
    ];
    // 12 matches the groups of 10 and of 14; only the first takes it
    place(&mut groups, 4, Width(12), RULES);
    assert_eq!(sources(&groups), vec![vec![1, 4], vec![2], vec![3]]);
    // 16 matches only the second
    place(&mut groups, 5, Width(16), RULES);
    assert_eq!(sources(&groups), vec![vec![1, 4], vec![2, 5], vec![3]]);
    // 50 matches none
    place(&mut groups, 6, Width(50), RULES);
    assert_eq!(sources(&groups), vec![vec![1, 4], vec![2, 5], vec![3], vec![6]]);
    assert!(is_grouped(&groups, 5));
    assert!(!is_grouped(&groups, 7));
}

#[test]
fn grouping_is_not_transitive() {
    // 10 ~ 12 ~ 14, though 10 and 14 are not about the same
    let groups = group_letterforms(vec![(1, Width(10)), (2, Width(12)), (3, Width(14))], RULES);
    assert_eq!(sources(&groups), vec![vec![1, 2, 3]]);
    // given in another order, the chain never forms
    let groups = group_letterforms(vec![(1, Width(10)), (3, Width(14)), (2, Width(12))], RULES);
    assert_eq!(sources(&groups), vec![vec![1, 2], vec![3]]);
}

#[test]
fn mutually_similar_letterforms_share_a_group_in_any_order() {
    let (a, b, c) = ((1, Width(10)), (2, Width(11)), (3, Width(12)));
    for order in [[a, b, c], [c, b, a], [b, a, c], [a, c, b], [b, c, a], [c, a, b]] {
        let groups = group_letterforms(order.to_vec(), RULES);
        assert_eq!(groups.len(), 1);
        assert_eq!(groups[0].letterforms, order.to_vec());
    }
}

#[test]
fn the_members_are_the_ones_that_are_sampled() {
    // 5 finds 9 about the same, not the other way round
    let groups = group_letterforms(vec![(1, OneWay(5)), (2, OneWay(9))], RULES);
    assert_eq!(sources(&groups), vec![vec![1, 2]]);
    let groups = group_letterforms(vec![(2, OneWay(9)), (1, OneWay(5))], RULES);
    assert_eq!(sources(&groups), vec![vec![2], vec![1]]);
}

#[test]
fn no_letterforms_make_no_groups() {
    let groups = group_letterforms(Vec::<(u64, Width)>::new(), RULES);
    assert!(groups.is_empty());
}

#[test]
fn every_source_has_one_place() {
    let given: Vec<(u64, Width)> = (0..40).map(|i| (i, Width((i * 7919) % 97))).collect();
    let groups = group_letterforms(given.clone(), RULES);
    let mut seen: Vec<u64> = sources(&groups).concat();
    seen.sort();
    assert_eq!(seen, (0..40).collect::<Vec<u64>>());
    for group in &groups {
        assert!(!group.letterforms.is_empty());
        for (m, member) in group.letterforms.iter().enumerate().skip(1) {
            assert!(group.letterforms[..m]
                .iter()
                .any(|earlier| earlier.1.approximately_equal(&member.1, RULES).is_ok()));
        }
    }
}
