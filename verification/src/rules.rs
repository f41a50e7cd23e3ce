//! The three thresholds that decide how far apart two outlines may lie.

use vstd::prelude::*;

verus! {

/// The grid, in units per em, that thresholds are stated for.
pub const REFERENCE_UPEM: u16 = 1000;

/// Thresholds of the comparison, in ticks (`equivalence`, `error`) and in
/// square ticks (`budget`), stated for an em of `REFERENCE_UPEM` units.
#[derive(Debug, Clone, Copy, PartialEq, Eq, Structural)]
pub struct RulesOfSimilarity {
    /// Two points at most this far apart count as the same point.
    pub equivalence: u64,
    /// How much squared separation the tolerable samples may add up to.
    pub budget: u64,
    /// A single sample farther apart than this ends the comparison.
    pub error: u64,
}

/// `value * upem / 1000`, rounded down.
pub open spec fn scale_for(value: u64, upem: u16) -> int {
    (value as int * upem as int) / (REFERENCE_UPEM as int)
}

impl RulesOfSimilarity {
    /// The rules that `for_upem` gives: unchanged on the reference grid, each
    /// threshold multiplied by `upem / 1000` (rounded down) on any other.
    pub open spec fn scaled(self, upem: u16) -> (int, int, int) {
        if upem == REFERENCE_UPEM {
            (self.equivalence as int, self.budget as int, self.error as int)
        } else {
            (
                scale_for(self.equivalence, upem),
                scale_for(self.budget, upem),
                scale_for(self.error, upem),
            )
        }
    }

    /// Whether the scaled thresholds still fit their fields.
    pub open spec fn scales_to(self, upem: u16) -> bool {
        &&& self.scaled(upem).0 <= u64::MAX
        &&& self.scaled(upem).1 <= u64::MAX
        &&& self.scaled(upem).2 <= u64::MAX
    }

    /// Restates the rules for a grid of `upem` units per em.
    pub fn for_upem(self, upem: u16) -> (scaled: Self)
        requires
            self.scales_to(upem),
        ensures
            scaled.equivalence == self.scaled(upem).0,
            scaled.budget == self.scaled(upem).1,
            scaled.error == self.scaled(upem).2,
    {
        self.checked_for_upem(upem).unwrap()
    }

    /// Restates the rules for a grid of `upem` units per em, unless a scaled
    /// threshold would not fit its field.
    pub fn checked_for_upem(self, upem: u16) -> (scaled: Option<Self>)
        ensures
            scaled is Some == self.scales_to(upem),
            scaled matches Some(rules) ==> rules.equivalence == self.scaled(upem).0 && rules.budget
                == self.scaled(upem).1 && rules.error == self.scaled(upem).2,
    {
        if upem == REFERENCE_UPEM {
            return Some(self);
        }
        let equivalence = match scale_threshold(self.equivalence, upem) {
            Some(v) => v,
            None => { return None; },
        };
        let budget = match scale_threshold(self.budget, upem) {
            Some(v) => v,
            None => { return None; },
        };
        let error = match scale_threshold(self.error, upem) {
            Some(v) => v,
            None => { return None; },
        };
        Some(RulesOfSimilarity { equivalence, budget, error })
    }
}

fn scale_threshold(value: u64, upem: u16) -> (scaled: Option<u64>)
    ensures
        match scaled {
            Some(v) => v == scale_for(value, upem),
            None => scale_for(value, upem) > u64::MAX,
        },
{
    assert(value as int * upem as int <= u64::MAX as int * u16::MAX as int) by (nonlinear_arith)
        requires
            0 <= value as int <= u64::MAX as int,
            0 <= upem as int <= u16::MAX as int,
    ;
    let wide: u128 = (value as u128) * (upem as u128);
    let scaled: u128 = wide / (REFERENCE_UPEM as u128);
    if scaled > u64::MAX as u128 {
        None
    } else {
        Some(scaled as u64)
    }
}

/// The largest of `upems`, where there is any: the grid that the letterforms
/// of all sources are compared on.
pub fn largest_upem(upems: &Vec<u16>) -> (largest: Option<u16>)
    ensures
        match largest {
            Some(m) => upems@.contains(m) && forall|i: int|
                0 <= i < upems@.len() ==> upems@[i] <= m,
            None => upems@.len() == 0,
        },
{
    if upems.len() == 0 {
        return None;
    }
    let mut largest: u16 = upems[0];
    let mut i: usize = 1;
    while i < upems.len()
        invariant
            1 <= i <= upems@.len(),
            upems@.contains(largest),
            forall|k: int| 0 <= k < i ==> upems@[k] <= largest,
        decreases upems@.len() - i,
    {
        if upems[i] > largest {
            largest = upems[i];
        }
        i += 1;
    }
    Some(largest)
}

} // verus!
