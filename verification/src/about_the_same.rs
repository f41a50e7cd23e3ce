//! The budgeted comparison: how the separations measured at the samples of one
//! outline, each against the nearest point of another, decide whether the two
//! are about the same.

use vstd::prelude::*;

pub use crate::rules::RulesOfSimilarity;

verus! {

/// Each segment is sampled at the parameters `0/10, 1/10, ..., 10/10`.
pub const SAMPLE_STEPS: u8 = 10;

/// Why two outlines are not about the same.
#[derive(Debug, Clone, Copy, PartialEq, Eq, Structural)]
pub enum ApproximatelyEqualError {
    /// One sample lay farther from the other outline than `rules.error`.
    BrokeTheHardDeck { separation: u64, rules: RulesOfSimilarity },
    /// The tolerable separations added up to more than `rules.budget`.
    ExhaustedBudget(RulesOfSimilarity),
    /// Exactly one of the two outlines is empty.
    EmptinessMismatch,
}

/// Things that can be judged about the same under some rules.
///
/// `similar` is the verdict as a truth value: whether `approximately_equal`
/// returns `Ok`. Code built on the trait says through it what it returns, so
/// an implementation promises that its verdict depends on `self`, `other` and
/// `rules` alone.
pub trait AboutTheSame<T = Self> {
    /// Whether `self` and `other` are about the same under `rules`.
    spec fn similar(&self, other: &T, rules: RulesOfSimilarity) -> bool;

    /// Compares `self`, whose points are sampled, with `other`, on which the
    /// nearest points are looked up.
    fn approximately_equal(&self, other: &T, rules: RulesOfSimilarity) -> (verdict: Result<
        (),
        ApproximatelyEqualError,
    >)
        ensures
            verdict is Ok == self.similar(other, rules),
    ;
}

/// What a sample costs: nothing up to `rules.equivalence`, its square beyond.
pub open spec fn penalty(rules: RulesOfSimilarity, separation: u64) -> int {
    if separation <= rules.equivalence {
        0
    } else {
        separation as int * separation as int
    }
}

/// The penalties of `separations` added up.
pub open spec fn total_penalty(rules: RulesOfSimilarity, separations: Seq<u64>) -> int
    decreases separations.len(),
{
    if separations.len() == 0 {
        0
    } else {
        penalty(rules, separations.first()) + total_penalty(rules, separations.drop_first())
    }
}

/// Whether a sample this far apart ends the comparison whatever the budget:
/// it lies beyond `rules.error`, and not within `rules.equivalence`.
pub open spec fn too_far(rules: RulesOfSimilarity, separation: u64) -> bool {
    separation > rules.equivalence && separation > rules.error
}

/// A comparison under way: the rules and what is left of the budget.
#[derive(Debug, Clone, Copy, PartialEq, Eq, Structural)]
pub struct Comparison {
    pub rules: RulesOfSimilarity,
    pub remaining_budget: u64,
}

impl Comparison {
    /// The comparison after one more sample with the given separation.
    pub open spec fn after(self, separation: u64) -> Result<Comparison, ApproximatelyEqualError> {
        if separation <= self.rules.equivalence {
            Ok(self)
        } else if separation > self.rules.error {
            Err(ApproximatelyEqualError::BrokeTheHardDeck { separation, rules: self.rules })
        } else if separation as int * separation as int > self.remaining_budget {
            Err(ApproximatelyEqualError::ExhaustedBudget(self.rules))
        } else {
            Ok(
                Comparison {
                    rules: self.rules,
                    remaining_budget: (self.remaining_budget - separation as int
                        * separation as int) as u64,
                },
            )
        }
    }

    /// The comparison after all of `separations`, taken in order; the first
    /// sample that fails decides.
    pub open spec fn after_all(self, separations: Seq<u64>) -> Result<
        Comparison,
        ApproximatelyEqualError,
    >
        decreases separations.len(),
    {
        if separations.len() == 0 {
            Ok(self)
        } else {
            match self.after(separations.first()) {
                Ok(next) => next.after_all(separations.drop_first()),
                Err(e) => Err(e),
            }
        }
    }

    /// How a comparison starts: outlines of which exactly one is empty never
    /// match; otherwise the whole budget is still there.
    pub open spec fn start(self_is_empty: bool, other_is_empty: bool, rules: RulesOfSimilarity)
        -> Result<Comparison, ApproximatelyEqualError> {
        if self_is_empty != other_is_empty {
            Err(ApproximatelyEqualError::EmptinessMismatch)
        } else {
            Ok(Comparison { rules, remaining_budget: rules.budget })
        }
    }

    /// Starts a comparison between two outlines, told only whether each is
    /// empty.
    pub fn begin(self_is_empty: bool, other_is_empty: bool, rules: RulesOfSimilarity) -> (started:
        Result<Comparison, ApproximatelyEqualError>)
        ensures
            started == Self::start(self_is_empty, other_is_empty, rules),
    {
        if self_is_empty != other_is_empty {
            return Err(ApproximatelyEqualError::EmptinessMismatch);
        }
        Ok(Comparison { rules, remaining_budget: rules.budget })
    }

    /// Takes in the separation measured at one sample. On `Err` the
    /// comparison is over and `self` is as it was.
    pub fn sample(&mut self, separation: u64) -> (verdict: Result<(), ApproximatelyEqualError>)
        ensures
            match old(self).after(separation) {
                Ok(next) => verdict is Ok && *final(self) == next,
                Err(e) => verdict == Err::<(), ApproximatelyEqualError>(e) && *final(self) == *old(
                    self,
                ),
            },
    {
        if separation <= self.rules.equivalence {
            return Ok(());
        }
        if separation > self.rules.error {
            return Err(
                ApproximatelyEqualError::BrokeTheHardDeck { separation, rules: self.rules },
            );
        }
        assert(separation as int * separation as int <= u64::MAX as int * u64::MAX as int)
            by (nonlinear_arith)
            requires
                0 <= separation as int <= u64::MAX as int,
        ;
        let squared: u128 = (separation as u128) * (separation as u128);
        if squared > self.remaining_budget as u128 {
            return Err(ApproximatelyEqualError::ExhaustedBudget(self.rules));
        }
        self.remaining_budget = self.remaining_budget - (squared as u64);
        Ok(())
    }
}

/// The verdict on two outlines, given whether each is empty and the
/// separations of the samples in the order they are taken.
pub open spec fn verdict_of(
    self_is_empty: bool,
    other_is_empty: bool,
    rules: RulesOfSimilarity,
    separations: Seq<u64>,
) -> Result<(), ApproximatelyEqualError> {
    match Comparison::start(self_is_empty, other_is_empty, rules) {
        Err(e) => Err(e),
        Ok(started) => match started.after_all(separations) {
            Ok(_) => Ok(()),
            Err(e) => Err(e),
        },
    }
}

/// Judges two outlines from the separations measured at every sample.
pub fn judge(
    self_is_empty: bool,
    other_is_empty: bool,
    rules: RulesOfSimilarity,
    separations: &Vec<u64>,
) -> (verdict: Result<(), ApproximatelyEqualError>)
    ensures
        verdict == verdict_of(self_is_empty, other_is_empty, rules, separations@),
{
    let mut comparison = match Comparison::begin(self_is_empty, other_is_empty, rules) {
        Ok(started) => started,
        Err(e) => { return Err(e); },
    };
    let ghost started = comparison;
    let mut i: usize = 0;
    assert(separations@.skip(0) == separations@);
    while i < separations.len()
        invariant
            i <= separations.len(),
            Comparison::start(self_is_empty, other_is_empty, rules) == Ok::<
                Comparison,
                ApproximatelyEqualError,
            >(started),
            started.after_all(separations@) == comparison.after_all(separations@.skip(i as int)),
        decreases separations.len() - i,
    {
        proof {
            let rest = separations@.skip(i as int);
            assert(rest.first() == separations@[i as int]);
            assert(rest.drop_first() == separations@.skip(i + 1));
        }
        match comparison.sample(separations[i]) {
            Ok(()) => {},
            Err(e) => { return Err(e); },
        }
        i += 1;
    }
    Ok(())
}

proof fn square_is_not_negative(a: int)
    by (nonlinear_arith)
    ensures
        a * a >= 0,
{
}

proof fn total_penalty_is_not_negative(rules: RulesOfSimilarity, separations: Seq<u64>)
    ensures
        total_penalty(rules, separations) >= 0,
    decreases separations.len(),
{
    if separations.len() > 0 {
        square_is_not_negative(separations.first() as int);
        total_penalty_is_not_negative(rules, separations.drop_first());
    }
}

/// What a run of samples comes to. It ends well exactly when no sample is
/// too far and the penalties fit the budget, and then the budget has shrunk
/// by their total. Where no sample is too far, it can only end by exhausting
/// the budget.
pub proof fn samples_add_up(from: Comparison, separations: Seq<u64>)
    ensures
        from.after_all(separations) is Ok <==> (forall|i: int|
            0 <= i < separations.len() ==> !too_far(from.rules, #[trigger] separations[i]))
            && total_penalty(from.rules, separations) <= from.remaining_budget,
        from.after_all(separations) matches Ok(left) ==> left.rules == from.rules
            && left.remaining_budget == from.remaining_budget - total_penalty(
            from.rules,
            separations,
        ),
        (forall|i: int| 0 <= i < separations.len() ==> !too_far(from.rules, #[trigger] separations[i]))
            && from.after_all(separations) is Err ==> from.after_all(separations) == Err::<
            Comparison,
            ApproximatelyEqualError,
        >(ApproximatelyEqualError::ExhaustedBudget(from.rules)),
    decreases separations.len(),
{
    if separations.len() > 0 {
        let rest = separations.drop_first();
        total_penalty_is_not_negative(from.rules, rest);
        square_is_not_negative(separations.first() as int);
        assert(separations[0] == separations.first());
        assert forall|i: int| 0 <= i < rest.len() implies rest[i] == separations[i + 1] by {}
        match from.after(separations.first()) {
            Ok(next) => {
                samples_add_up(next, rest);
                if forall|i: int|
                    0 <= i < separations.len() ==> !too_far(from.rules, #[trigger] separations[i]) {
                    assert forall|i: int| 0 <= i < rest.len() implies !too_far(
                        next.rules,
                        #[trigger] rest[i],
                    ) by {
                        assert(rest[i] == separations[i + 1]);
                    }
                }
                if forall|i: int| 0 <= i < rest.len() ==> !too_far(next.rules, #[trigger] rest[i]) {
                    assert forall|i: int| 0 <= i < separations.len() implies !too_far(
                        from.rules,
                        #[trigger] separations[i],
                    ) by {
                        if i > 0 {
                            assert(rest[i - 1] == separations[i]);
                        }
                    }
                }
            },
            Err(_) => {},
        }
    }
}

/// Emptiness decides before any sample is taken. Two empty outlines, which
/// have no samples, agree; an empty outline and one that is not never do,
/// whichever of them is sampled and whatever is measured.
pub proof fn emptiness_decides(rules: RulesOfSimilarity, separations: Seq<u64>)
    ensures
        verdict_of(true, true, rules, Seq::empty()) is Ok,
        verdict_of(true, false, rules, separations) == Err::<(), ApproximatelyEqualError>(
            ApproximatelyEqualError::EmptinessMismatch,
        ),
        verdict_of(false, true, rules, separations) == Err::<(), ApproximatelyEqualError>(
            ApproximatelyEqualError::EmptinessMismatch,
        ),
{
}

/// Samples that all lie within `rules.equivalence` of the other outline cost
/// nothing: two outlines of which both or neither are empty then agree,
/// whatever the budget. So an outline agrees with itself, every sample of it
/// being at separation zero from it.
pub proof fn coinciding_samples_agree(
    self_is_empty: bool,
    other_is_empty: bool,
    rules: RulesOfSimilarity,
    separations: Seq<u64>,
)
    requires
        self_is_empty == other_is_empty,
        forall|i: int| 0 <= i < separations.len() ==> #[trigger] separations[i] <= rules.equivalence,
    ensures
        verdict_of(self_is_empty, other_is_empty, rules, separations) is Ok,
{
    let started = Comparison { rules, remaining_budget: rules.budget };
    free_samples_cost_nothing(rules, separations);
    samples_add_up(started, separations);
}

proof fn free_samples_cost_nothing(rules: RulesOfSimilarity, separations: Seq<u64>)
    requires
        forall|i: int| 0 <= i < separations.len() ==> #[trigger] separations[i] <= rules.equivalence,
    ensures
        total_penalty(rules, separations) == 0,
    decreases separations.len(),
{
    if separations.len() > 0 {
        let rest = separations.drop_first();
        assert(separations[0] == separations.first());
        assert forall|i: int| 0 <= i < rest.len() implies #[trigger] rest[i]
            <= rules.equivalence by {
            assert(rest[i] == separations[i + 1]);
        }
        free_samples_cost_nothing(rules, rest);
    }
}

/// The hard ceiling comes before the budget. Where the samples before the
/// `k`-th are none too far and their penalties fit the budget, and the `k`-th
/// is too far, the verdict is `BrokeTheHardDeck` with that separation,
/// however large the budget and whatever follows.
pub proof fn hard_ceiling_dominates(
    self_is_empty: bool,
    other_is_empty: bool,
    rules: RulesOfSimilarity,
    separations: Seq<u64>,
    k: int,
)
    requires
        self_is_empty == other_is_empty,
        0 <= k < separations.len(),
        too_far(rules, separations[k]),
        forall|i: int| 0 <= i < k ==> !too_far(rules, #[trigger] separations[i]),
        total_penalty(rules, separations.take(k)) <= rules.budget,
    ensures
        verdict_of(self_is_empty, other_is_empty, rules, separations) == Err::<
            (),
            ApproximatelyEqualError,
        >(ApproximatelyEqualError::BrokeTheHardDeck { separation: separations[k], rules }),
{
    let started = Comparison { rules, remaining_budget: rules.budget };
    let before = separations.take(k);
    let after = separations.skip(k);
    assert(separations == before + after);
    samples_in_two_runs(started, before, after);
    samples_add_up(started, before);
    assert(before.len() == k);
    assert forall|i: int| 0 <= i < before.len() implies !too_far(rules, #[trigger] before[i]) by {
        assert(before[i] == separations[i]);
    }
    assert(after.first() == separations[k]);
}

proof fn samples_in_two_runs(from: Comparison, first: Seq<u64>, second: Seq<u64>)
    ensures
        from.after_all(first + second) == match from.after_all(first) {
            Ok(between) => between.after_all(second),
            Err(e) => Err(e),
        },
    decreases first.len(),
{
    if first.len() == 0 {
        assert(first + second == second);
    } else {
        let whole = first + second;
        assert(whole.first() == first.first());
        assert(whole.drop_first() == first.drop_first() + second);
        match from.after(first.first()) {
            Ok(next) => {
                samples_in_two_runs(next, first.drop_first(), second);
            },
            Err(_) => {},
        }
    }
}

/// One sample too far among samples that cost nothing: the verdict is
/// `BrokeTheHardDeck` with its separation, whatever the budget.
pub proof fn one_sample_too_far(
    self_is_empty: bool,
    other_is_empty: bool,
    rules: RulesOfSimilarity,
    separations: Seq<u64>,
    k: int,
)
    requires
        self_is_empty == other_is_empty,
        0 <= k < separations.len(),
        too_far(rules, separations[k]),
        forall|i: int|
            0 <= i < separations.len() && i != k ==> #[trigger] separations[i] <= rules.equivalence,
    ensures
        verdict_of(self_is_empty, other_is_empty, rules, separations) == Err::<
            (),
            ApproximatelyEqualError,
        >(ApproximatelyEqualError::BrokeTheHardDeck { separation: separations[k], rules }),
{
    let before = separations.take(k);
    assert forall|i: int| 0 <= i < before.len() implies #[trigger] before[i]
        <= rules.equivalence by {
        assert(before[i] == separations[i]);
    }
    free_samples_cost_nothing(rules, before);
    hard_ceiling_dominates(self_is_empty, other_is_empty, rules, separations, k);
}

/// `count` samples, each at the same separation.
pub open spec fn uniform(count: nat, separation: u64) -> Seq<u64> {
    Seq::new(count, |i: int| separation)
}

proof fn uniform_total(rules: RulesOfSimilarity, count: nat, separation: u64)
    ensures
        total_penalty(rules, uniform(count, separation)) == count * penalty(rules, separation),
    decreases count,
{
    let each = penalty(rules, separation);
    let all = uniform(count, separation);
    if count == 0 {
        assert(all.len() == 0);
        assert(count * each == 0) by (nonlinear_arith)
            requires
                count == 0,
        ;
    } else {
        assert(all.len() == count);
        assert(all.drop_first() == uniform((count - 1) as nat, separation));
        assert(all.first() == separation);
        uniform_total(rules, (count - 1) as nat, separation);
        assert(count * each == each + (count - 1) * each) by (nonlinear_arith);
        assert(total_penalty(rules, all) == each + total_penalty(rules, all.drop_first()));
    }
}

/// The budget is spent by the square. `count` samples, each at one
/// separation beyond `rules.equivalence` and within `rules.error`, agree
/// while the budget covers `count` times the square of that separation, and
/// exhaust the budget once it does not.
pub proof fn tolerable_samples_spend_their_squares(
    rules: RulesOfSimilarity,
    count: nat,
    separation: u64,
)
    requires
        rules.equivalence < separation <= rules.error,
    ensures
        verdict_of(false, false, rules, uniform(count, separation)) == if count * (separation
            * separation) <= rules.budget {
            Ok::<(), ApproximatelyEqualError>(())
        } else {
            Err::<(), ApproximatelyEqualError>(ApproximatelyEqualError::ExhaustedBudget(rules))
        },
{
    let started = Comparison { rules, remaining_budget: rules.budget };
    uniform_total(rules, count, separation);
    samples_add_up(started, uniform(count, separation));
}

/// Budget accumulation in terms of the excess `delta` over
/// `rules.equivalence`: `count` samples, each at separation
/// `rules.equivalence + delta` and within `rules.error`, agree where the
/// budget covers `count * delta * delta` and exhaust it where it does not.
/// This leaves out the budgets that cover `count` times the square of the
/// excess but not `count` times the square of the separation, on which the
/// penalty, the square of the whole separation, exhausts the budget.
pub proof fn budget_accumulation(rules: RulesOfSimilarity, count: nat, delta: u64)
    requires
        rules.equivalence + delta <= rules.error,
        delta > 0 ==> !(count * (delta * delta) <= rules.budget < count * ((rules.equivalence
            + delta) * (rules.equivalence + delta))),
    ensures
        verdict_of(
            false,
            false,
            rules,
            uniform(count, (rules.equivalence + delta) as u64),
        ) == if count * (delta * delta) <= rules.budget {
            Ok::<(), ApproximatelyEqualError>(())
        } else {
            Err::<(), ApproximatelyEqualError>(ApproximatelyEqualError::ExhaustedBudget(rules))
        },
{
    let separation = (rules.equivalence + delta) as u64;
    if delta == 0 {
        let samples = uniform(count, separation);
        assert(count * (delta * delta) == 0) by (nonlinear_arith)
            requires
                delta == 0,
        ;
        coinciding_samples_agree(false, false, rules, samples);
    } else {
        tolerable_samples_spend_their_squares(rules, count, separation);
        assert(count * (delta * delta) <= count * (separation * separation)) by (nonlinear_arith)
            requires
                0 < delta <= separation,
                count >= 0,
        ;
    }
}

} // verus!
