//! Which sets of sources share letterforms, and for how many characters.

use vstd::prelude::*;

use crate::grouping;
use crate::grouping::LetterformGroup;

verus! {

/// A set of sources and the number of groups that consist of just them.
#[derive(Debug, Clone, PartialEq, Eq)]
pub struct ShareCount {
    /// The sources, in ascending order.
    pub sources: Vec<u64>,
    /// In how many groups they were found together.
    pub score: usize,
}

/// Whether `sources` stand in ascending order, none of them twice.
pub open spec fn ascending(sources: Seq<u64>) -> bool {
    forall|i: int, j: int| 0 <= i < j < sources.len() ==> sources[i] < sources[j]
}

/// Whether `key` holds just the sources that have a letterform in `group`.
pub open spec fn same_sources<T>(group: Seq<(u64, T)>, key: Seq<u64>) -> bool {
    forall|s: u64| grouping::has_source(group, s) <==> key.contains(s)
}

/// Whether `group` counts for `key`: it has two members or more, and `key`
/// holds just its sources, in ascending order.
pub open spec fn shared_by<T>(group: Seq<(u64, T)>, key: Seq<u64>) -> bool {
    group.len() >= 2 && ascending(key) && same_sources(group, key)
}

/// How many of `groups` count for `key`.
pub open spec fn times_shared<T>(groups: Seq<Seq<(u64, T)>>, key: Seq<u64>) -> nat
    decreases groups.len(),
{
    if groups.len() == 0 {
        0
    } else {
        times_shared(groups.drop_last(), key) + if shared_by(groups.last(), key) {
            1nat
        } else {
            0nat
        }
    }
}

/// The index at or after `from` of the first of `groups` that counts for
/// `key`, or their number where none does.
pub open spec fn first_shared<T>(groups: Seq<Seq<(u64, T)>>, key: Seq<u64>, from: int) -> int
    decreases groups.len() - from,
{
    if from < 0 || from >= groups.len() {
        groups.len() as int
    } else if shared_by(groups[from], key) {
        from
    } else {
        first_shared(groups, key, from + 1)
    }
}

/// The score that `counts` hold for `key`: zero where they have no entry for
/// it.
pub open spec fn score_of(counts: Seq<ShareCount>, key: Seq<u64>) -> nat
    decreases counts.len(),
{
    if counts.len() == 0 {
        0
    } else {
        score_of(counts.drop_last(), key) + if counts.last().sources@ == key {
            counts.last().score as nat
        } else {
            0nat
        }
    }
}

/// Whether `counts` are in order: every entry has its sources ascending and
/// a score above zero, and no two entries have the same sources.
pub open spec fn tidy(counts: Seq<ShareCount>) -> bool {
    &&& forall|e: int|
        0 <= e < counts.len() ==> ascending((#[trigger] counts[e]).sources@) && counts[e].score > 0
    &&& forall|e: int, f: int|
        0 <= e < f < counts.len() ==> (#[trigger] counts[e]).sources@ != (
        #[trigger] counts[f]).sources@
}

/// Sources in ascending order are told by what they hold: two such runs with
/// the same members are the same run.
pub proof fn ascending_is_unique(a: Seq<u64>, b: Seq<u64>)
    requires
        ascending(a),
        ascending(b),
        forall|s: u64| a.contains(s) <==> b.contains(s),
    ensures
        a == b,
    decreases a.len(),
{
    if a.len() == 0 {
        if b.len() > 0 {
            assert(b.contains(b[0]));
        }
        assert(a =~= b);
    } else {
        let top = a.last();
        assert(a.contains(a[a.len() - 1]));
        assert(b.contains(top));
        let at = choose|k: int| 0 <= k < b.len() && b[k] == top;
        assert(b.contains(b[b.len() - 1]));
        let back = choose|k: int| 0 <= k < a.len() && a[k] == b.last();
        assert(at == b.len() - 1);
        let (short_a, short_b) = (a.drop_last(), b.drop_last());
        assert forall|s: u64| short_a.contains(s) <==> short_b.contains(s) by {
            if short_a.contains(s) {
                let k = choose|k: int| 0 <= k < short_a.len() && short_a[k] == s;
                assert(a[k] == s && a.contains(s));
                let m = choose|m: int| 0 <= m < b.len() && b[m] == s;
                assert(short_b[m] == s);
            }
            if short_b.contains(s) {
                let k = choose|k: int| 0 <= k < short_b.len() && short_b[k] == s;
                assert(b[k] == s && b.contains(s));
                let m = choose|m: int| 0 <= m < a.len() && a[m] == s;
                assert(short_a[m] == s);
            }
        }
        ascending_is_unique(short_a, short_b);
        assert(a =~= short_a.push(top));
        assert(b =~= short_b.push(top));
    }
}

/// The sources of `group` in ascending order, each once.
pub fn source_key<T>(group: &LetterformGroup<T>) -> (key: Vec<u64>)
    ensures
        ascending(key@),
        same_sources(group@, key@),
{
    let mut key: Vec<u64> = Vec::new();
    let mut i: usize = 0;
    while i < group.letterforms.len()
        invariant
            i <= group@.len(),
            group@ == group.letterforms@,
            ascending(key@),
            forall|s: u64| key@.contains(s) <==> grouping::has_source(group@.take(i as int), s),
        decreases group@.len() - i,
    {
        let source = group.letterforms[i].0;
        let mut at: usize = 0;
        while at < key.len() && key[at] < source
            invariant
                at <= key@.len(),
                forall|k: int| 0 <= k < at ==> key@[k] < source,
            decreases key@.len() - at,
        {
            at += 1;
        }
        let ghost before = key@;
        let ghost seen = group@.take(i as int);
        let ghost more = group@.take(i + 1);
        proof {
            assert(more == seen.push(group@[i as int]));
            assert forall|s: u64|
                grouping::has_source(more, s) <==> grouping::has_source(seen, s) || s
                    == source by {
                if grouping::has_source(more, s) && s != source {
                    let k = choose|k: int| 0 <= k < more.len() && (#[trigger] more[k]).0 == s;
                    assert(seen[k].0 == s);
                }
                if grouping::has_source(seen, s) {
                    let k = choose|k: int| 0 <= k < seen.len() && (#[trigger] seen[k]).0 == s;
                    assert(more[k].0 == s);
                }
                assert(more[i as int].0 == source);
            }
        }
        if at < key.len() && key[at] == source {
            assert(before.contains(source));
        } else {
            key.insert(at, source);
            proof {
                let after = key@;
                assert(after == before.insert(at as int, source));
                assert forall|k: int| at <= k < before.len() implies source < before[k] by {
                    assert(source < before[at as int]);
                    if k > at {
                        assert(before[at as int] < before[k]);
                    }
                }
                assert forall|a: int, b: int| 0 <= a < b < after.len() implies after[a]
                    < after[b] by {
                    if a < at {
                        assert(after[a] == before[a]);
                    } else if a > at {
                        assert(after[a] == before[a - 1]);
                    }
                    if b < at {
                        assert(after[b] == before[b]);
                    } else if b > at {
                        assert(after[b] == before[b - 1]);
                    }
                }
                assert forall|s: u64| after.contains(s) <==> before.contains(s) || s
                    == source by {
                    if after.contains(s) && s != source {
                        let k = choose|k: int| 0 <= k < after.len() && after[k] == s;
                        let from_k = if k < at {
                            k
                        } else {
                            k - 1
                        };
                        assert(before[from_k] == s);
                    }
                    if before.contains(s) {
                        let m = choose|m: int| 0 <= m < before.len() && before[m] == s;
                        let to_m = if m < at {
                            m
                        } else {
                            m + 1
                        };
                        assert(after[to_m] == s);
                    }
                    assert(after[at as int] == source);
                }
            }
        }
        i += 1;
    }
    proof {
        assert(group@.take(group@.len() as int) == group@);
    }
    key
}

fn same_key(a: &Vec<u64>, b: &Vec<u64>) -> (same: bool)
    ensures
        same == (a@ == b@),
{
    if a.len() != b.len() {
        return false;
    }
    let mut k: usize = 0;
    while k < a.len()
        invariant
            k <= a@.len(),
            a@.len() == b@.len(),
            forall|j: int| 0 <= j < k ==> a@[j] == b@[j],
        decreases a@.len() - k,
    {
        if a[k] != b[k] {
            return false;
        }
        k += 1;
    }
    assert(a@ =~= b@);
    true
}

proof fn never_shared<T>(groups: Seq<Seq<(u64, T)>>, key: Seq<u64>)
    requires
        times_shared(groups, key) == 0,
    ensures
        forall|j: int| 0 <= j < groups.len() ==> !shared_by(#[trigger] groups[j], key),
    decreases groups.len(),
{
    if groups.len() > 0 {
        let front = groups.drop_last();
        never_shared(front, key);
        assert forall|j: int| 0 <= j < groups.len() implies !shared_by(
            #[trigger] groups[j],
            key,
        ) by {
            if j < front.len() {
                assert(front[j] == groups[j]);
            } else {
                assert(groups[j] == groups.last());
            }
        }
    }
}

proof fn first_shared_is<T>(groups: Seq<Seq<(u64, T)>>, key: Seq<u64>, from: int, at: int)
    requires
        0 <= from <= at < groups.len(),
        shared_by(groups[at], key),
        forall|j: int| from <= j < at ==> !shared_by(#[trigger] groups[j], key),
    ensures
        first_shared(groups, key, from) == at,
    decreases at - from,
{
    if from < at {
        first_shared_is(groups, key, from + 1, at);
    }
}

proof fn score_of_tidy(counts: Seq<ShareCount>, key: Seq<u64>)
    requires
        tidy(counts),
    ensures
        forall|e: int|
            0 <= e < counts.len() && (#[trigger] counts[e]).sources@ == key ==> score_of(
                counts,
                key,
            ) == counts[e].score,
        (forall|e: int| 0 <= e < counts.len() ==> (#[trigger] counts[e]).sources@ != key)
            ==> score_of(counts, key) == 0,
    decreases counts.len(),
{
    if counts.len() > 0 {
        let front = counts.drop_last();
        assert forall|e: int| 0 <= e < front.len() implies front[e] == counts[e] by {}
        assert(tidy(front));
        score_of_tidy(front, key);
        assert(counts.last() == counts[counts.len() - 1]);
        if counts.last().sources@ == key {
            assert forall|e: int| 0 <= e < front.len() implies (#[trigger] front[e]).sources@
                != key by {
                assert(counts[e].sources@ != counts[counts.len() - 1].sources@);
            }
        }
    }
}

/// Takes the groups of one more character into `counts`: every group of two
/// members or more adds one to the score of its set of sources, which gets an
/// entry if it has none yet.
pub fn count_shared<T>(counts: &mut Vec<ShareCount>, groups: &Vec<LetterformGroup<T>>)
    requires
        tidy(old(counts)@),
        forall|e: int|
            0 <= e < old(counts)@.len() ==> (#[trigger] old(counts)@[e]).score + groups@.len()
                <= usize::MAX,
    ensures
        tidy(final(counts)@),
        forall|key: Seq<u64>|
            #[trigger] score_of(final(counts)@, key) == score_of(old(counts)@, key) + times_shared(
                grouping::members_of(groups@),
                key,
            ),
        final(counts)@.len() >= old(counts)@.len(),
        forall|e: int|
            0 <= e < old(counts)@.len() ==> (#[trigger] final(counts)@[e]).sources@ == old(
                counts,
            )@[e].sources@,
        forall|e: int, f: int|
            old(counts)@.len() <= e < f < final(counts)@.len() ==> first_shared(
                grouping::members_of(groups@),
                (#[trigger] final(counts)@[e]).sources@,
                0,
            ) < first_shared(
                grouping::members_of(groups@),
                (#[trigger] final(counts)@[f]).sources@,
                0,
            ),
{
    let ghost members = grouping::members_of(groups@);
    let ghost start = counts@;
    let mut i: usize = 0;
    assert(members.take(0) =~= Seq::<Seq<(u64, T)>>::empty());
    while i < groups.len()
        invariant
            i <= groups@.len(),
            members == grouping::members_of(groups@),
            tidy(counts@),
            forall|e: int|
                0 <= e < counts@.len() ==> (#[trigger] counts@[e]).score + (groups@.len() - i)
                    <= usize::MAX,
            forall|key: Seq<u64>|
                #[trigger] score_of(counts@, key) == score_of(start, key) + times_shared(
                    members.take(i as int),
                    key,
                ),
            counts@.len() >= start.len(),
            forall|e: int|
                0 <= e < start.len() ==> (#[trigger] counts@[e]).sources@ == start[e].sources@,
            forall|e: int|
                start.len() <= e < counts@.len() ==> first_shared(
                    members,
                    (#[trigger] counts@[e]).sources@,
                    0,
                ) < i,
            forall|e: int, f: int|
                start.len() <= e < f < counts@.len() ==> first_shared(
                    members,
                    (#[trigger] counts@[e]).sources@,
                    0,
                ) < first_shared(members, (#[trigger] counts@[f]).sources@, 0),
        decreases groups@.len() - i,
    {
        let ghost before = counts@;
        let ghost group = members[i as int];
        proof {
            let upto = members.take(i + 1);
            assert(upto.drop_last() == members.take(i as int));
            assert(upto.last() == group);
            assert(group == groups@[i as int]@);
        }
        if groups[i].letterforms.len() >= 2 {
            let key = source_key(&groups[i]);
            let mut e: usize = 0;
            while e < counts.len() && !same_key(&counts[e].sources, &key)
                invariant
                    e <= counts@.len(),
                    forall|f: int| 0 <= f < e ==> (#[trigger] counts@[f]).sources@ != key@,
                decreases counts@.len() - e,
            {
                e += 1;
            }
            if e < counts.len() {
                let score = counts[e].score;
                counts[e].score = score + 1;
                proof {
                    let after = counts@;
                    assert(after.len() == before.len());
                    assert forall|f: int| 0 <= f < after.len() implies (#[trigger] after[f]).sources@
                        == before[f].sources@ && after[f].score >= before[f].score by {}
                    assert(tidy(after));
                    assert forall|other: Seq<u64>| #[trigger]
                        score_of(after, other) == score_of(before, other) + if other == key@ {
                            1nat
                        } else {
                            0nat
                        } by {
                        score_of_tidy(before, other);
                        score_of_tidy(after, other);
                        if other == key@ {
                            assert(before[e as int].sources@ == other);
                            assert(after[e as int].sources@ == other);
                        } else if exists|f: int|
                            0 <= f < before.len() && (#[trigger] before[f]).sources@ == other {
                            let f = choose|f: int|
                                0 <= f < before.len() && (#[trigger] before[f]).sources@ == other;
                            assert(after[f].sources@ == other);
                            assert(after[f].score == before[f].score);
                        } else {
                            assert forall|f: int| 0 <= f < after.len() implies (
                            #[trigger] after[f]).sources@ != other by {
                                assert(before[f].sources@ != other);
                            }
                        }
                    }
                }
            } else {
                proof {
                    score_of_tidy(before, key@);
                    let seen = members.take(i as int);
                    never_shared(seen, key@);
                    assert forall|j: int| 0 <= j < i implies !shared_by(
                        #[trigger] members[j],
                        key@,
                    ) by {
                        assert(seen[j] == members[j]);
                    }
                    first_shared_is(members, key@, 0, i as int);
                }
                counts.push(ShareCount { sources: key, score: 1 });
                proof {
                    let after = counts@;
                    assert(after.drop_last() == before);
                    assert forall|e: int| 0 <= e < before.len() implies after[e] == before[e] by {}
                    assert(after.last().sources@ == key@);
                    assert forall|f: int| 0 <= f < after.len() implies ascending(
                        (#[trigger] after[f]).sources@,
                    ) && after[f].score > 0 by {
                        if f < before.len() {
                            assert(after[f] == before[f]);
                        }
                    }
                    assert forall|f: int, g: int| 0 <= f < g < after.len() implies (
                    #[trigger] after[f]).sources@ != (#[trigger] after[g]).sources@ by {
                        assert(after[f] == before[f]);
                        if g < before.len() {
                            assert(after[g] == before[g]);
                        }
                    }
                    assert forall|other: Seq<u64>| #[trigger]
                        score_of(after, other) == score_of(before, other) + if other == key@ {
                            1nat
                        } else {
                            0nat
                        } by {}
                }
            }
            proof {
                assert forall|other: Seq<u64>| #[trigger]
                    shared_by(group, other) == (other == key@) by {
                    if shared_by(group, other) {
                        ascending_is_unique(other, key@);
                    }
                }
            }
        }
        proof {
            assert forall|other: Seq<u64>| #[trigger]
                score_of(counts@, other) == score_of(start, other) + times_shared(
                    members.take(i + 1),
                    other,
                ) by {
                assert(score_of(before, other) == score_of(start, other) + times_shared(
                    members.take(i as int),
                    other,
                ));
                assert(score_of(counts@, other) == score_of(before, other) + if shared_by(
                    group,
                    other,
                ) {
                    1nat
                } else {
                    0nat
                });
            }
        }
        i += 1;
    }
    proof {
        assert(members.take(groups@.len() as int) == members);
    }
}

} // verus!
