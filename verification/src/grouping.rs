//! Grouping: the letterforms that several sources give for one character,
//! sorted into groups of those that are about the same.

use vstd::prelude::*;

use crate::about_the_same::{AboutTheSame, RulesOfSimilarity};

verus! {

/// Letterforms of one character that are about the same, each with the
/// source it came from, in the order they joined.
pub struct LetterformGroup<T> {
    pub letterforms: Vec<(u64, T)>,
}

impl<T> View for LetterformGroup<T> {
    type V = Seq<(u64, T)>;

    open spec fn view(&self) -> Seq<(u64, T)> {
        self.letterforms@
    }
}

/// Whether `source` has a letterform among `members`.
pub open spec fn has_source<T>(members: Seq<(u64, T)>, source: u64) -> bool {
    exists|k: int| 0 <= k < members.len() && (#[trigger] members[k]).0 == source
}

/// Whether one of `members` finds `letterform` about the same as itself.
pub open spec fn any_similar<T: AboutTheSame>(
    members: Seq<(u64, T)>,
    letterform: T,
    rules: RulesOfSimilarity,
) -> bool {
    exists|k: int| 0 <= k < members.len() && (#[trigger] members[k]).1.similar(&letterform, rules)
}

/// Where `source` stands among `members`: the index of its first letterform,
/// or their number where it has none.
pub open spec fn position_of<T>(members: Seq<(u64, T)>, source: u64) -> int
    decreases members.len(),
{
    if members.len() == 0 {
        0
    } else if members.first().0 == source {
        0
    } else {
        1 + position_of(members.drop_first(), source)
    }
}

impl<T> LetterformGroup<T> {
    /// A group of one.
    pub fn new(source: u64, letterform: T) -> (group: Self)
        ensures
            group@ == seq![(source, letterform)],
    {
        let mut letterforms: Vec<(u64, T)> = Vec::new();
        letterforms.push((source, letterform));
        proof {
            assert(letterforms@ == seq![(source, letterform)]);
        }
        LetterformGroup { letterforms }
    }

    /// Whether `source` has a letterform in the group.
    pub fn contains_source(&self, source: u64) -> (found: bool)
        ensures
            found == has_source(self@, source),
    {
        let mut k: usize = 0;
        while k < self.letterforms.len()
            invariant
                k <= self.letterforms@.len(),
                forall|j: int| 0 <= j < k ==> (#[trigger] self.letterforms@[j]).0 != source,
            decreases self.letterforms@.len() - k,
        {
            if self.letterforms[k].0 == source {
                return true;
            }
            k += 1;
        }
        false
    }

    /// Gives `source` the letterform `letterform` in this group. A source new
    /// to the group joins at the end, and `None` comes back; for a source
    /// already in it, the new letterform takes the place of its first one,
    /// which comes back.
    pub fn insert(&mut self, source: u64, letterform: T) -> (replaced: Option<T>)
        ensures
            !has_source(old(self)@, source) ==> replaced is None && final(self)@ == old(self)@.push(
                (source, letterform),
            ),
            has_source(old(self)@, source) ==> replaced == Some(
                old(self)@[position_of(old(self)@, source)].1,
            ) && final(self)@ == old(self)@.update(
                position_of(old(self)@, source),
                (source, letterform),
            ),
    {
        let mut k: usize = 0;
        assert(self.letterforms@.skip(0) == self.letterforms@);
        while k < self.letterforms.len()
            invariant
                k <= self.letterforms@.len(),
                self.letterforms@ == old(self).letterforms@,
                forall|j: int| 0 <= j < k ==> (#[trigger] self.letterforms@[j]).0 != source,
                position_of(self.letterforms@, source) == k + position_of(
                    self.letterforms@.skip(k as int),
                    source,
                ),
            decreases self.letterforms@.len() - k,
        {
            proof {
                let rest = self.letterforms@.skip(k as int);
                assert(rest.first() == self.letterforms@[k as int]);
                assert(rest.drop_first() == self.letterforms@.skip(k + 1));
            }
            if self.letterforms[k].0 == source {
                let ghost before = self.letterforms@;
                self.letterforms.push((source, letterform));
                let old_member = self.letterforms.swap_remove(k);
                proof {
                    assert(self.letterforms@ == before.update(k as int, (source, letterform)));
                }
                return Some(old_member.1);
            }
            k += 1;
        }
        self.letterforms.push((source, letterform));
        None
    }
}

impl<T: AboutTheSame> LetterformGroup<T> {
    /// Whether some member finds `letterform` about the same as itself. The
    /// members are the ones sampled; `letterform` is the one looked up on.
    pub fn matches(&self, letterform: &T, rules: RulesOfSimilarity) -> (found: bool)
        ensures
            found == any_similar(self@, *letterform, rules),
    {
        let mut k: usize = 0;
        while k < self.letterforms.len()
            invariant
                k <= self.letterforms@.len(),
                forall|j: int|
                    0 <= j < k ==> !(#[trigger] self.letterforms@[j]).1.similar(letterform, rules),
            decreases self.letterforms@.len() - k,
        {
            if self.letterforms[k].1.approximately_equal(letterform, rules).is_ok() {
                return true;
            }
            k += 1;
        }
        false
    }
}

/// The members of each group, group by group.
pub open spec fn members_of<T>(groups: Seq<LetterformGroup<T>>) -> Seq<Seq<(u64, T)>> {
    Seq::new(groups.len(), |i: int| groups[i]@)
}

/// Whether `source` has a letterform in any of `groups`.
pub open spec fn grouped_source<T>(groups: Seq<Seq<(u64, T)>>, source: u64) -> bool {
    exists|g: int| 0 <= g < groups.len() && has_source(#[trigger] groups[g], source)
}

/// The index of the first of `groups` with a member that finds `letterform`
/// about the same as itself, or their number where there is none.
pub open spec fn first_match<T: AboutTheSame>(
    groups: Seq<Seq<(u64, T)>>,
    letterform: T,
    rules: RulesOfSimilarity,
) -> int
    decreases groups.len(),
{
    if groups.len() == 0 {
        0
    } else if any_similar(groups.first(), letterform, rules) {
        0
    } else {
        1 + first_match(groups.drop_first(), letterform, rules)
    }
}

/// The groups after one more letterform: it joins the first group that it
/// matches, and no other; where it matches none, it starts a group of its own
/// behind them.
pub open spec fn placed<T: AboutTheSame>(
    groups: Seq<Seq<(u64, T)>>,
    source: u64,
    letterform: T,
    rules: RulesOfSimilarity,
) -> Seq<Seq<(u64, T)>> {
    let k = first_match(groups, letterform, rules);
    if k < groups.len() {
        groups.update(k, groups[k].push((source, letterform)))
    } else {
        groups.push(seq![(source, letterform)])
    }
}

/// The groups that `letterforms` fall into when they are placed one after
/// another, starting from none.
pub open spec fn grouped<T: AboutTheSame>(
    letterforms: Seq<(u64, T)>,
    rules: RulesOfSimilarity,
) -> Seq<Seq<(u64, T)>>
    decreases letterforms.len(),
{
    if letterforms.len() == 0 {
        Seq::empty()
    } else {
        placed(
            grouped(letterforms.drop_last(), rules),
            letterforms.last().0,
            letterforms.last().1,
            rules,
        )
    }
}

/// Whether `source` already has a letterform in one of `groups`.
pub fn is_grouped<T>(groups: &Vec<LetterformGroup<T>>, source: u64) -> (found: bool)
    ensures
        found == grouped_source(members_of(groups@), source),
{
    let mut g: usize = 0;
    while g < groups.len()
        invariant
            g <= groups@.len(),
            forall|j: int| 0 <= j < g ==> !has_source(#[trigger] members_of(groups@)[j], source),
        decreases groups@.len() - g,
    {
        if groups[g].contains_source(source) {
            assert(has_source(members_of(groups@)[g as int], source));
            return true;
        }
        g += 1;
    }
    false
}

/// Places the letterform that `source` gives for the character among
/// `groups`: into the first group that it matches, or else into a new group
/// at the end. A source has one letterform for a character, so `source` must
/// not be among the groups yet.
pub fn place<T: AboutTheSame>(
    groups: &mut Vec<LetterformGroup<T>>,
    source: u64,
    letterform: T,
    rules: RulesOfSimilarity,
)
    requires
        !grouped_source(members_of(old(groups)@), source),
    ensures
        members_of(final(groups)@) == placed(members_of(old(groups)@), source, letterform, rules),
{
    let ghost before = members_of(groups@);
    let mut k: usize = 0;
    assert(before.skip(0) == before);
    while k < groups.len()
        invariant
            k <= groups@.len(),
            groups@ == old(groups)@,
            before == members_of(groups@),
            !grouped_source(before, source),
            first_match(before, letterform, rules) == k + first_match(
                before.skip(k as int),
                letterform,
                rules,
            ),
        decreases groups@.len() - k,
    {
        proof {
            let rest = before.skip(k as int);
            assert(rest.first() == before[k as int]);
            assert(rest.drop_first() == before.skip(k + 1));
            assert(before[k as int] == groups@[k as int]@);
        }
        if groups[k].matches(&letterform, rules) {
            proof {
                assert(!has_source(before[k as int], source));
            }
            let _ = groups[k].insert(source, letterform);
            proof {
                assert(members_of(groups@) =~= before.update(
                    k as int,
                    before[k as int].push((source, letterform)),
                ));
            }
            return ;
        }
        k += 1;
    }
    groups.push(LetterformGroup::new(source, letterform));
    proof {
        assert(members_of(groups@) =~= before.push(seq![(source, letterform)]));
    }
}

/// Whether no source occurs twice among `letterforms`.
pub open spec fn distinct_sources<T>(letterforms: Seq<(u64, T)>) -> bool {
    forall|i: int, j: int|
        0 <= i < j < letterforms.len() ==> (#[trigger] letterforms[i]).0 != (
        #[trigger] letterforms[j]).0
}

proof fn first_match_in_range<T: AboutTheSame>(
    groups: Seq<Seq<(u64, T)>>,
    letterform: T,
    rules: RulesOfSimilarity,
)
    ensures
        0 <= first_match(groups, letterform, rules) <= groups.len(),
        first_match(groups, letterform, rules) < groups.len() ==> any_similar(
            groups[first_match(groups, letterform, rules)],
            letterform,
            rules,
        ),
        forall|g: int|
            0 <= g < first_match(groups, letterform, rules) ==> !any_similar(
                #[trigger] groups[g],
                letterform,
                rules,
            ),
    decreases groups.len(),
{
    if groups.len() > 0 && !any_similar(groups.first(), letterform, rules) {
        let rest = groups.drop_first();
        first_match_in_range(rest, letterform, rules);
        let k = first_match(rest, letterform, rules);
        if k < rest.len() {
            assert(rest[k] == groups[k + 1]);
        }
        assert forall|g: int| 0 <= g < 1 + k implies !any_similar(
            #[trigger] groups[g],
            letterform,
            rules,
        ) by {
            if g > 0 {
                assert(rest[g - 1] == groups[g]);
            }
        }
    }
}

/// Placing a letterform adds its source to those of the groups, and nothing
/// else.
pub proof fn placed_sources<T: AboutTheSame>(
    groups: Seq<Seq<(u64, T)>>,
    source: u64,
    letterform: T,
    rules: RulesOfSimilarity,
    other: u64,
)
    ensures
        grouped_source(placed(groups, source, letterform, rules), other) <==> grouped_source(
            groups,
            other,
        ) || other == source,
{
    first_match_in_range(groups, letterform, rules);
    let k = first_match(groups, letterform, rules);
    let after = placed(groups, source, letterform, rules);
    let target = if k < groups.len() {
        k
    } else {
        groups.len() as int
    };
    let joined = after[target];
    assert(joined[joined.len() - 1] == (source, letterform));
    assert(has_source(joined, source));
    if grouped_source(groups, other) {
        let g = choose|g: int| 0 <= g < groups.len() && has_source(#[trigger] groups[g], other);
        let m = choose|m: int| 0 <= m < groups[g].len() && (#[trigger] groups[g][m]).0 == other;
        assert(after[g][m].0 == other);
        assert(has_source(after[g], other));
    }
    if grouped_source(after, other) && other != source {
        let g = choose|g: int| 0 <= g < after.len() && has_source(#[trigger] after[g], other);
        let m = choose|m: int| 0 <= m < after[g].len() && (#[trigger] after[g][m]).0 == other;
        if g == target {
            assert(m < joined.len() - 1);
            assert(groups[g][m].0 == other);
        } else {
            assert(groups[g][m].0 == other);
        }
        assert(has_source(groups[g], other));
    }
}

/// The sources in the groups are the sources of the letterforms grouped.
pub proof fn grouped_sources<T: AboutTheSame>(
    letterforms: Seq<(u64, T)>,
    rules: RulesOfSimilarity,
    source: u64,
)
    ensures
        grouped_source(grouped(letterforms, rules), source) <==> has_source(letterforms, source),
    decreases letterforms.len(),
{
    if letterforms.len() > 0 {
        let front = letterforms.drop_last();
        let last = letterforms.last();
        grouped_sources(front, rules, source);
        placed_sources(grouped(front, rules), last.0, last.1, rules, source);
        if has_source(front, source) {
            let k = choose|k: int| 0 <= k < front.len() && (#[trigger] front[k]).0 == source;
            assert(letterforms[k].0 == source);
        }
        if has_source(letterforms, source) && source != last.0 {
            let k = choose|k: int|
                0 <= k < letterforms.len() && (#[trigger] letterforms[k]).0 == source;
            assert(front[k].0 == source);
        }
        if source == last.0 {
            assert(letterforms[letterforms.len() - 1].0 == source);
        }
    }
}

/// Groups the letterforms that the sources give for one character, taking
/// them in the order given.
pub fn group_letterforms<T: AboutTheSame>(
    letterforms: Vec<(u64, T)>,
    rules: RulesOfSimilarity,
) -> (groups: Vec<LetterformGroup<T>>)
    requires
        distinct_sources(letterforms@),
    ensures
        members_of(groups@) == grouped(letterforms@, rules),
{
    let ghost all = letterforms@;
    let mut groups: Vec<LetterformGroup<T>> = Vec::new();
    assert(members_of(groups@) =~= grouped(all.take(0), rules));
    for item in iter: letterforms
        invariant
            iter.seq() == all,
            distinct_sources(all),
            members_of(groups@) == grouped(all.take(iter.index() as int), rules),
    {
        let ghost i = iter.index() as int;
        proof {
            let upto = all.take(i + 1);
            assert(upto.drop_last() == all.take(i));
            assert(upto.last() == item);
            grouped_sources(all.take(i), rules, item.0);
            if has_source(all.take(i), item.0) {
                let k = choose|k: int|
                    0 <= k < all.take(i).len() && (#[trigger] all.take(i)[k]).0 == item.0;
                assert(all[k].0 != all[i].0);
            }
        }
        place(&mut groups, item.0, item.1, rules);
    }
    proof {
        assert(all.take(all.len() as int) == all);
    }
    groups
}

/// Whether each source has at most one place in `groups`.
pub open spec fn exclusive<T>(groups: Seq<Seq<(u64, T)>>) -> bool {
    forall|g: int, m: int, h: int, n: int|
        0 <= g < groups.len() && 0 <= m < groups[g].len() && 0 <= h < groups.len() && 0 <= n
            < groups[h].len() && (#[trigger] groups[g][m]).0 == (#[trigger] groups[h][n]).0 ==> g
            == h && m == n
}

/// Whether every member of `group` but the first was found about the same
/// by a member that joined before it.
pub open spec fn chained<T: AboutTheSame>(group: Seq<(u64, T)>, rules: RulesOfSimilarity) -> bool {
    forall|m: int|
        0 < m < group.len() ==> any_similar(group.take(m), (#[trigger] group[m]).1, rules)
}

/// Groups are what the data model asks of them: none is empty, every member
/// but the first of a group was matched by an earlier member of it, and,
/// where no source was given twice, each source has exactly one place.
pub proof fn groups_are_well_formed<T: AboutTheSame>(
    letterforms: Seq<(u64, T)>,
    rules: RulesOfSimilarity,
)
    ensures
        forall|g: int|
            0 <= g < grouped(letterforms, rules).len() ==> (#[trigger] grouped(
                letterforms,
                rules,
            )[g]).len() > 0,
        forall|g: int|
            0 <= g < grouped(letterforms, rules).len() ==> chained(
                #[trigger] grouped(letterforms, rules)[g],
                rules,
            ),
        distinct_sources(letterforms) ==> exclusive(grouped(letterforms, rules)),
    decreases letterforms.len(),
{
    if letterforms.len() > 0 {
        let front = letterforms.drop_last();
        let (source, letterform) = letterforms.last();
        let before = grouped(front, rules);
        let after = grouped(letterforms, rules);
        groups_are_well_formed(front, rules);
        first_match_in_range(before, letterform, rules);
        let k = first_match(before, letterform, rules);
        assert forall|g: int| 0 <= g < after.len() implies chained(#[trigger] after[g], rules) by {
            if g == k {
                let group = after[g];
                assert forall|m: int| 0 < m < group.len() implies any_similar(
                    group.take(m),
                    (#[trigger] group[m]).1,
                    rules,
                ) by {
                    if k < before.len() {
                        if m < before[k].len() {
                            assert(group.take(m) == before[k].take(m));
                            assert(group[m] == before[k][m]);
                        } else {
                            assert(group.take(m) == before[k]);
                        }
                    }
                }
            } else {
                assert(after[g] == before[g]);
            }
        }
        if distinct_sources(letterforms) {
            assert forall|i: int, j: int| 0 <= i < j < front.len() implies (#[trigger] front[i]).0
                != (#[trigger] front[j]).0 by {
                assert(front[i] == letterforms[i] && front[j] == letterforms[j]);
            }
            grouped_sources(front, rules, source);
            if has_source(front, source) {
                let i = choose|i: int| 0 <= i < front.len() && (#[trigger] front[i]).0 == source;
                assert(letterforms[i].0 != letterforms[letterforms.len() - 1].0);
            }
            assert forall|g: int, m: int, h: int, n: int|
                0 <= g < after.len() && 0 <= m < after[g].len() && 0 <= h < after.len() && 0 <= n
                    < after[h].len() && (#[trigger] after[g][m]).0 == (
                #[trigger] after[h][n]).0 implies g == h && m == n by {
                let new_g = g == k && m == after[g].len() - 1;
                let new_h = h == k && n == after[h].len() - 1;
                if !new_g {
                    assert(after[g][m] == before[g][m]);
                    assert(has_source(before[g], after[g][m].0));
                }
                if !new_h {
                    assert(after[h][n] == before[h][n]);
                    assert(has_source(before[h], after[h][n].0));
                }
            }
        }
    }
}

/// Letterforms that are all about the same as one another end up in one
/// group, whatever the order they are given in: the group holds them all, in
/// that order.
pub proof fn mutually_similar_share_one_group<T: AboutTheSame>(
    letterforms: Seq<(u64, T)>,
    rules: RulesOfSimilarity,
)
    requires
        letterforms.len() > 0,
        forall|i: int, j: int|
            0 <= i < letterforms.len() && 0 <= j < letterforms.len() && i != j ==> (
            #[trigger] letterforms[i]).1.similar(&(#[trigger] letterforms[j]).1, rules),
    ensures
        grouped(letterforms, rules) == seq![letterforms],
    decreases letterforms.len(),
{
    let front = letterforms.drop_last();
    let (source, letterform) = letterforms.last();
    if front.len() == 0 {
        assert(grouped(front, rules) =~= Seq::<Seq<(u64, T)>>::empty());
        assert(letterforms == seq![(source, letterform)]);
        assert(grouped(letterforms, rules) =~= seq![letterforms]);
    } else {
        assert forall|i: int, j: int|
            0 <= i < front.len() && 0 <= j < front.len() && i != j implies (
        #[trigger] front[i]).1.similar(&(#[trigger] front[j]).1, rules) by {
            assert(front[i] == letterforms[i] && front[j] == letterforms[j]);
        }
        mutually_similar_share_one_group(front, rules);
        let before = grouped(front, rules);
        assert(before.first() == front);
        assert(front[0] == letterforms[0]);
        assert(letterforms[0].1.similar(&letterforms[letterforms.len() - 1].1, rules));
        assert(front[0].1.similar(&letterform, rules));
        assert(any_similar(before.first(), letterform, rules));
        assert(front.push((source, letterform)) == letterforms);
        assert(grouped(letterforms, rules) =~= seq![letterforms]);
    }
}

} // verus!
